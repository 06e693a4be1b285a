//! Per-element rewrite rules for cooked post bodies.
//!
//! The DOM walk happens outside the library; for every element it meets, a
//! function here decides — from attribute values and the base URL alone —
//! what to fetch and what to write back.

use vstd::prelude::*;

use crate::strutil::{
    all_digits, chars_of, digit_val, digits_val, ends_with_pat, find_char, find_char_from, has_prefix,
    has_suffix, is_digit, is_ws_char, lemma_digits_val_nonneg, lemma_find_char_at, lemma_trim_edges, lemma_trim_idempotent, lower,
    match_at, parse_u64, replace_all, spec_dec_digits, spec_parse_u64, spec_replace, spec_split,
    spec_trim, spec_ws_tokens, split_on, string_from_chars, subvec, to_lower_vec, trim_vec,
    u64_to_dec, vecs_eq, ws_tokens,
};
use crate::urlres::{resolve_any_vec, spec_resolve_any, BaseUrl};

verus! {

/// What one character of attribute text escapes to.
pub open spec fn spec_escape_attr_char(c: char) -> Seq<char> {
    if c == '&' {
        "&amp;"@
    } else if c == '"' {
        "&quot;"@
    } else if c == '<' {
        "&lt;"@
    } else if c == '>' {
        "&gt;"@
    } else {
        seq![c]
    }
}

/// Attribute-safe escaping of a whole sequence.
pub open spec fn spec_escape_attr(s: Seq<char>) -> Seq<char>
    decreases s.len(),
{
    if s.len() == 0 {
        Seq::empty()
    } else {
        spec_escape_attr(s.drop_last()) + spec_escape_attr_char(s.last())
    }
}

/// What one character of element text escapes to.
pub open spec fn spec_escape_text_char(c: char) -> Seq<char> {
    if c == '&' {
        "&amp;"@
    } else if c == '<' {
        "&lt;"@
    } else if c == '>' {
        "&gt;"@
    } else {
        seq![c]
    }
}

/// Text-safe escaping of a whole sequence.
pub open spec fn spec_escape_text(s: Seq<char>) -> Seq<char>
    decreases s.len(),
{
    if s.len() == 0 {
        Seq::empty()
    } else {
        spec_escape_text(s.drop_last()) + spec_escape_text_char(s.last())
    }
}

/// Escapes a string for use inside a double-quoted HTML attribute.
pub fn html_escape_attr(s: &str) -> (r: String)
    ensures
        r@ == spec_escape_attr(s@),
{
    let v = chars_of(s);
    let mut r = String::new();
    let mut i: usize = 0;
    while i < v.len()
        invariant
            v@ == s@,
            i <= v@.len(),
            r@ == spec_escape_attr(v@.subrange(0, i as int)),
        decreases v.len() - i,
    {
        let c = v[i];
        if c == '&' {
            r.append("&amp;");
        } else if c == '"' {
            r.append("&quot;");
        } else if c == '<' {
            r.append("&lt;");
        } else if c == '>' {
            r.append("&gt;");
        } else {
            crate::strutil::push_char(&mut r, c);
        }
        proof {
            assert(v@.subrange(0, i + 1 as int).drop_last() =~= v@.subrange(0, i as int));
            assert(seq![c] =~= Seq::empty().push(c));
            assert(r@ =~= spec_escape_attr(v@.subrange(0, i + 1 as int)));
        }
        i = i + 1;
    }
    proof {
        assert(v@.subrange(0, v@.len() as int) =~= v@);
    }
    r
}

/// Escapes a string for use as HTML element text.
pub fn html_escape_text(s: &str) -> (r: String)
    ensures
        r@ == spec_escape_text(s@),
{
    let v = chars_of(s);
    let mut r = String::new();
    let mut i: usize = 0;
    while i < v.len()
        invariant
            v@ == s@,
            i <= v@.len(),
            r@ == spec_escape_text(v@.subrange(0, i as int)),
        decreases v.len() - i,
    {
        let c = v[i];
        if c == '&' {
            r.append("&amp;");
        } else if c == '<' {
            r.append("&lt;");
        } else if c == '>' {
            r.append("&gt;");
        } else {
            crate::strutil::push_char(&mut r, c);
        }
        proof {
            assert(v@.subrange(0, i + 1 as int).drop_last() =~= v@.subrange(0, i as int));
            assert(seq![c] =~= Seq::empty().push(c));
            assert(r@ =~= spec_escape_text(v@.subrange(0, i + 1 as int)));
        }
        i = i + 1;
    }
    proof {
        assert(v@.subrange(0, v@.len() as int) =~= v@);
    }
    r
}

/// The href's path part (before any query string), lowercased, ends in a
/// known image extension.
pub open spec fn spec_looks_like_image_url(href: Seq<char>) -> bool {
    let l = lower(href);
    let q = l.subrange(0, find_char(l, '?') as int);
    ||| has_suffix(q, ".png"@)
    ||| has_suffix(q, ".jpg"@)
    ||| has_suffix(q, ".jpeg"@)
    ||| has_suffix(q, ".gif"@)
    ||| has_suffix(q, ".webp"@)
    ||| has_suffix(q, ".svg"@)
    ||| has_suffix(q, ".avif"@)
}

/// Tests whether a link target looks like an image file.
pub fn looks_like_image_url(href: &str) -> (r: bool)
    ensures
        r == spec_looks_like_image_url(href@),
{
    let v = chars_of(href);
    let l = to_lower_vec(&v);
    let cut = find_char_from(&l, '?', 0);
    proof {
        lemma_find_char_at(l@, '?', cut as int);
    }
    let q = subvec(&l, 0, cut);
    let png = chars_of(".png");
    let jpg = chars_of(".jpg");
    let jpeg = chars_of(".jpeg");
    let gif = chars_of(".gif");
    let webp = chars_of(".webp");
    let svg = chars_of(".svg");
    let avif = chars_of(".avif");
    ends_with_pat(&q, &png) || ends_with_pat(&q, &jpg) || ends_with_pat(&q, &jpeg) || ends_with_pat(
        &q,
        &gif,
    ) || ends_with_pat(&q, &webp) || ends_with_pat(&q, &svg) || ends_with_pat(&q, &avif)
}

/// A trimmed href is absolutized when it is a genuine relative reference:
/// non-empty, not a fragment, not an inert scheme, and not already absolute.
pub open spec fn spec_should_absolutize(href: Seq<char>) -> bool {
    let h = spec_trim(href);
    &&& h.len() > 0
    &&& !has_prefix(h, "#"@)
    &&& !has_prefix(h, "mailto:"@)
    &&& !has_prefix(h, "tel:"@)
    &&& !has_prefix(h, "javascript:"@)
    &&& !has_prefix(h, "data:"@)
    &&& !has_prefix(h, "http://"@)
    &&& !has_prefix(h, "https://"@)
}

/// Decides whether a link's href is absolutized against the base URL.
pub fn should_absolutize_href(href: &str) -> (r: bool)
    ensures
        r == spec_should_absolutize(href@),
{
    let v = chars_of(href);
    let h = trim_vec(&v);
    if h.len() == 0 {
        return false;
    }
    let hash = chars_of("#");
    let mailto = chars_of("mailto:");
    let tel = chars_of("tel:");
    let js = chars_of("javascript:");
    let data = chars_of("data:");
    let http = chars_of("http://");
    let https = chars_of("https://");
    !(match_at(&h, &hash, 0) || match_at(&h, &mailto, 0) || match_at(&h, &tel, 0) || match_at(
        &h,
        &js,
        0,
    ) || match_at(&h, &data, 0) || match_at(&h, &http, 0) || match_at(&h, &https, 0))
}

/// The HTML put in place of an `<iframe>`, `<audio>` or `<video>`: a plain
/// paragraph-wrapped link to the trimmed source, its text the target itself
/// or the word `link` when the target is empty.
pub open spec fn spec_link_replacement(href: Seq<char>) -> Seq<char> {
    let safe = spec_trim(href);
    let display = if safe.len() == 0 {
        "link"@
    } else {
        safe
    };
    "<p><a href=\""@ + spec_escape_attr(safe) + "\" rel=\"noreferrer noopener\">"@
        + spec_escape_text(display) + "</a></p>"@
}

/// Builds the replacement fragment for a never-fetched embedded element.
pub fn link_replacement_html(href: &str) -> (r: String)
    ensures
        r@ == spec_link_replacement(href@),
{
    let v = chars_of(href);
    let t = trim_vec(&v);
    let safe = string_from_chars(&t);
    let mut r = String::from_str("<p><a href=\"");
    let ea = html_escape_attr(safe.as_str());
    r.append(ea.as_str());
    r.append("\" rel=\"noreferrer noopener\">");
    if t.len() == 0 {
        let et = html_escape_text("link");
        r.append(et.as_str());
    } else {
        let et = html_escape_text(safe.as_str());
        r.append(et.as_str());
    }
    r.append("</a></p>");
    r
}

/// An asset reference whose URL could not be resolved against its base: the
/// render aborts with this context.
#[derive(Debug)]
pub struct BadUrl {
    pub raw: String,
}

impl BadUrl {
    /// Describes the failed resolution.
    pub fn message(&self) -> (r: String) {
        let mut m = String::from_str("could not resolve url ");
        m.append(self.raw.as_str());
        m
    }
}

/// The avatar URL of a post: the template with `{size}` substituted, made
/// absolute against the base; `None` when the template is empty.
pub open spec fn spec_avatar_url(base: BaseUrl, template: Seq<char>, size: u32) -> Option<
    Option<Seq<char>>,
> {
    if template.len() == 0 {
        Some(None)
    } else {
        let t = spec_replace(template, "{size}"@, spec_dec_digits(size as int));
        match spec_resolve_any(base, t) {
            Some(u) => Some(Some(u)),
            None => None,
        }
    }
}

/// Resolves a post's avatar template: `Ok(None)` when there is no avatar,
/// `Ok(Some(url))` with the absolute URL to fetch, and an error when the
/// substituted template does not resolve.
pub fn avatar_url(base: &BaseUrl, template: &str, size: u32) -> (r: Result<Option<String>, BadUrl>)
    ensures
        (r is Ok) == (spec_avatar_url(*base, template@, size) is Some),
        r matches Ok(o) ==> Some(
            match o {
                Some(u) => Some(u@),
                None => None,
            },
        ) == spec_avatar_url(*base, template@, size),
{
    let v = chars_of(template);
    if v.len() == 0 {
        return Ok(None);
    }
    let pat = chars_of("{size}");
    proof {
        reveal_strlit("{size}");
    }
    let size_str = u64_to_dec(size as u64);
    let sub = chars_of(size_str.as_str());
    let t = replace_all(&v, &pat, &sub);
    let trimmed = trim_vec(&t);
    proof {
        lemma_trim_idempotent(t@);
    }
    match resolve_any_vec(base, &trimmed) {
        Some(u) => Ok(Some(u)),
        None => Err(BadUrl { raw: string_from_chars(&t) }),
    }
}

/// Ten to the `k`.
pub open spec fn pow10(k: nat) -> int
    decreases k,
{
    if k == 0 {
        1
    } else {
        10 * pow10((k - 1) as nat)
    }
}

proof fn lemma_digits_val_bound(s: Seq<char>)
    requires
        all_digits(s),
    ensures
        0 <= digits_val(s) < pow10(s.len()),
    decreases s.len(),
{
    if s.len() > 0 {
        assert(all_digits(s.drop_last()));
        lemma_digits_val_bound(s.drop_last());
        assert(digits_val(s) == digits_val(s.drop_last()) * 10 + digit_val(s.last()));
        assert(digits_val(s.drop_last()) * 10 + 9 < pow10((s.len() - 1) as nat) * 10) by (nonlinear_arith)
            requires
                digits_val(s.drop_last()) < pow10((s.len() - 1) as nat),
        ;
        assert(pow10(s.len()) == 10 * pow10((s.len() - 1) as nat));
    }
}

/// A non-negative decimal number in millionths: digits, an optional `.`, more
/// digits; at least one digit in all, fractional digits beyond the sixth
/// ignored. `None` when the text is not of that shape.
pub open spec fn spec_decimal_micro(s: Seq<char>) -> Option<int> {
    let dot = find_char(s, '.') as int;
    if dot == s.len() {
        if s.len() > 0 && all_digits(s) {
            Some(digits_val(s) * 1000000)
        } else {
            None
        }
    } else {
        let ip = s.subrange(0, dot);
        let fp = s.subrange(dot + 1, s.len() as int);
        if ip.len() + fp.len() > 0 && all_digits(ip) && all_digits(fp) {
            Some(digits_val(ip) * 1000000 + frac_micro(fp))
        } else {
            None
        }
    }
}

/// The value of fractional digits in millionths.
pub open spec fn frac_micro(f: Seq<char>) -> int {
    if f.len() >= 6 {
        digits_val(f.subrange(0, 6))
    } else {
        digits_val(f) * pow10((6 - f.len()) as nat)
    }
}

/// `spec_decimal_micro`, stopped at the largest representable value.
pub open spec fn spec_micro_sat(s: Seq<char>) -> Option<int> {
    match spec_decimal_micro(s) {
        Some(x) => Some(
            if x > u64::MAX {
                u64::MAX as int
            } else {
                x
            },
        ),
        None => None,
    }
}

fn all_digits_check(v: &Vec<char>, from: usize, to: usize) -> (r: bool)
    requires
        from <= to <= v@.len(),
    ensures
        r == all_digits(v@.subrange(from as int, to as int)),
{
    let mut i: usize = from;
    while i < to
        invariant
            from <= i <= to <= v@.len(),
            forall|k: int| from <= k < i ==> is_digit(v@[k]),
        decreases to - i,
    {
        let c = v[i];
        if !('0' <= c && c <= '9') {
            proof {
                assert(v@.subrange(from as int, to as int)[i - from] == c);
            }
            return false;
        }
        i = i + 1;
    }
    proof {
        assert(forall|k: int|
            0 <= k < to - from ==> v@.subrange(from as int, to as int)[k] == v@[k + from]);
    }
    true
}

/// Parses digits `v[from..to]` into millionth-free units, stopping at the
/// counter ceiling.
fn digits_val_sat(v: &Vec<char>, from: usize, to: usize) -> (r: u64)
    requires
        from <= to <= v@.len(),
        all_digits(v@.subrange(from as int, to as int)),
    ensures
        r as int == (if digits_val(v@.subrange(from as int, to as int)) > u64::MAX {
            u64::MAX as int
        } else {
            digits_val(v@.subrange(from as int, to as int))
        }),
{
    let ghost whole = v@.subrange(from as int, to as int);
    let mut acc: u64 = 0;
    let mut i: usize = from;
    while i < to
        invariant
            from <= i <= to <= v@.len(),
            whole == v@.subrange(from as int, to as int),
            all_digits(whole),
            acc as int == (if digits_val(whole.subrange(0, i - from)) > u64::MAX {
                u64::MAX as int
            } else {
                digits_val(whole.subrange(0, i - from))
            }),
        decreases to - i,
    {
        let c = v[i];
        proof {
            assert(whole[i - from] == c);
            assert(whole.subrange(0, i + 1 - from).drop_last() =~= whole.subrange(0, i - from));
            assert(whole.subrange(0, i + 1 - from).last() == c);
            assert(all_digits(whole.subrange(0, i - from)));
            lemma_digits_val_nonneg(whole.subrange(0, i - from));
        }
        let d: u64 = ((c as u32) - ('0' as u32)) as u64;
        let ghost prev = digits_val(whole.subrange(0, i - from));
        if acc > (u64::MAX - d) / 10 {
            proof {
                assert(acc * 10 + d > u64::MAX) by (nonlinear_arith)
                    requires
                        acc > (u64::MAX - d) / 10,
                        0 <= d <= 9,
                ;
                if prev <= u64::MAX {
                    assert(digits_val(whole.subrange(0, i + 1 - from)) == acc * 10 + d);
                } else {
                    assert(digits_val(whole.subrange(0, i + 1 - from)) == prev * 10 + d);
                    assert(prev * 10 + d > u64::MAX) by (nonlinear_arith)
                        requires
                            prev > u64::MAX,
                            d >= 0,
                    ;
                }
            }
            acc = u64::MAX;
        } else {
            proof {
                assert(acc * 10 + d <= u64::MAX) by (nonlinear_arith)
                    requires
                        acc <= (u64::MAX - d) / 10,
                        0 <= d <= 9,
                ;
                if prev > u64::MAX {
                    assert(acc == u64::MAX);
                    assert(u64::MAX * 10 + d > u64::MAX) by (nonlinear_arith)
                        requires
                            d >= 0,
                    ;
                    assert(false);
                }
            }
            acc = acc * 10 + d;
        }
        i = i + 1;
    }
    proof {
        assert(whole.subrange(0, to - from) =~= whole);
    }
    acc
}

/// The small powers of ten, up to the sixth.
pub proof fn lemma_pow10_le_6(n: nat)
    requires
        n <= 6,
    ensures
        0 < pow10(n) <= 1000000,
{
    assert(pow10(0) == 1);
    assert(pow10(1) == 10);
    assert(pow10(2) == 100);
    assert(pow10(3) == 1000);
    assert(pow10(4) == 10000);
    assert(pow10(5) == 100000);
    assert(pow10(6) == 1000000);
    if n == 0 {
        assert(pow10(n) == 1);
    } else if n == 1 {
        assert(pow10(n) == 10);
    } else if n == 2 {
        assert(pow10(n) == 100);
    } else if n == 3 {
        assert(pow10(n) == 1000);
    } else if n == 4 {
        assert(pow10(n) == 10000);
    } else if n == 5 {
        assert(pow10(n) == 100000);
    } else {
        assert(pow10(n) == 1000000);
    }
}

fn pow10_exec(k: u64) -> (r: u64)
    requires
        k <= 6,
    ensures
        r as int == pow10(k as nat),
{
    proof {
        lemma_pow10_6();
        assert(pow10(0) == 1);
        assert(pow10(1) == 10);
        assert(pow10(2) == 100);
        assert(pow10(3) == 1000);
        assert(pow10(4) == 10000);
        assert(pow10(5) == 100000);
    }
    match k {
        0 => 1,
        1 => 10,
        2 => 100,
        3 => 1000,
        4 => 10000,
        5 => 100000,
        _ => 1000000,
    }
}

/// Parses a decimal into saturated millionths.
fn decimal_micro(v: &Vec<char>) -> (r: Option<u64>)
    ensures
        (r is Some) == (spec_decimal_micro(v@) is Some),
        r matches Some(x) ==> Some(x as int) == spec_micro_sat(v@),
{
    let dot = find_char_from(v, '.', 0);
    proof {
        lemma_find_char_at(v@, '.', dot as int);
    }
    let ghost ip = v@.subrange(0, dot as int);
    let ip_ok = all_digits_check(v, 0, dot);
    if dot == v.len() {
        if v.len() == 0 || !ip_ok {
            proof {
                assert(ip =~= v@);
            }
            return None;
        }
        proof {
            assert(ip =~= v@);
        }
        let ipv = digits_val_sat(v, 0, dot);
        proof {
            lemma_digits_val_nonneg(v@);
            if digits_val(v@) <= u64::MAX {
                if digits_val(v@) > u64::MAX / 1000000 {
                    assert(digits_val(v@) * 1000000 > u64::MAX) by (nonlinear_arith)
                        requires
                            digits_val(v@) > u64::MAX / 1000000,
                ;
                } else {
                    assert(digits_val(v@) * 1000000 <= u64::MAX) by (nonlinear_arith)
                        requires
                            0 <= digits_val(v@) <= u64::MAX / 1000000,
                    ;
                }
            } else {
                assert(digits_val(v@) * 1000000 > u64::MAX) by (nonlinear_arith)
                    requires
                        digits_val(v@) > u64::MAX,
                ;
            }
        }
        if ipv > u64::MAX / 1000000 {
            return Some(u64::MAX);
        }
        return Some(ipv * 1000000);
    }
    let ghost fp = v@.subrange(dot + 1, v@.len() as int);
    let fp_ok = all_digits_check(v, dot + 1, v.len());
    if v.len() == 1 || !ip_ok || !fp_ok {
        proof {
            assert(ip.len() + fp.len() == v@.len() - 1);
        }
        return None;
    }
    proof {
        assert(ip.len() + fp.len() == v@.len() - 1);
    }
    let ipv = digits_val_sat(v, 0, dot);
    let frac_end = if v.len() - dot - 1 >= 6 {
        dot + 7
    } else {
        v.len()
    };
    let ghost fseg = v@.subrange(dot + 1, frac_end as int);
    proof {
        assert(all_digits(fseg)) by {
            assert(forall|k: int| 0 <= k < fseg.len() ==> fseg[k] == fp[k]);
        }
        lemma_digits_val_bound(fseg);
        lemma_pow10_le_6(fseg.len());
        assert(digits_val(fseg) < 1000000);
    }
    let fd = digits_val_sat(v, dot + 1, frac_end);
    let scale = pow10_exec(6 - ((frac_end - dot) as u64 - 1));
    proof {
        assert(fd as int == digits_val(fseg));
        lemma_pow10_le_6((6 - fseg.len()) as nat);
        assert((fd as int) * (scale as int) < 1000000000000int) by (nonlinear_arith)
            requires
                0 <= (fd as int) < 1000000,
                0 < (scale as int) <= 1000000,
        ;
    }
    let frc = fd * scale;
    proof {
        assert(frc as int == frac_micro(fp)) by {
            assert(frc as int == (fd as int) * (scale as int));
            assert(fd as int == digits_val(fseg));
            if fp.len() >= 6 {
                assert(fseg =~= fp.subrange(0, 6));
                assert(scale as int == pow10(0));
                assert(pow10(0) == 1);
                assert(frc as int == digits_val(fp.subrange(0, 6)) * 1) by (nonlinear_arith)
                    requires
                        frc as int == digits_val(fp.subrange(0, 6)) * (scale as int),
                        scale as int == 1,
                ;
                assert(frac_micro(fp) == digits_val(fp.subrange(0, 6)));
            } else {
                assert(fseg =~= fp);
                assert(scale as int == pow10((6 - fp.len()) as nat));
                assert(frac_micro(fp) == digits_val(fp) * pow10((6 - fp.len()) as nat));
            }
        }
        assert(0 <= frac_micro(fp) < 1000000) by {
            if fp.len() < 6 {
                assert(fseg =~= fp);
                assert(digits_val(fseg) * pow10((6 - fp.len()) as nat) < pow10(fseg.len())
                    * pow10((6 - fp.len()) as nat)) by (nonlinear_arith)
                    requires
                        0 <= digits_val(fseg) < pow10(fseg.len()),
                        pow10((6 - fp.len()) as nat) > 0,
                ;
                crate::htmlrewrite::lemma_pow10_sum(fseg.len(), (6 - fp.len()) as nat);
                lemma_pow10_6();
            } else {
                assert(fseg =~= fp.subrange(0, 6));
                lemma_pow10_6();
            }
        }
        lemma_digits_val_nonneg(ip);
        if digits_val(ip) <= u64::MAX {
            if digits_val(ip) > ((u64::MAX - frc) / 1000000) as int {
                assert(digits_val(ip) * 1000000 + frc > u64::MAX) by (nonlinear_arith)
                    requires
                        digits_val(ip) > ((u64::MAX - frc) / 1000000) as int,
                        0 <= frc <= u64::MAX,
                ;
            } else {
                assert(digits_val(ip) * 1000000 + frc <= u64::MAX) by (nonlinear_arith)
                    requires
                        0 <= digits_val(ip) <= ((u64::MAX - frc) / 1000000) as int,
                        0 <= frc,
                ;
            }
        } else {
            assert(digits_val(ip) * 1000000 + frc > u64::MAX) by (nonlinear_arith)
                requires
                    digits_val(ip) > u64::MAX,
                    frc >= 0,
            ;
        }
    }
    if ipv > (u64::MAX - frc) / 1000000 {
        return Some(u64::MAX);
    }
    Some(ipv * 1000000 + frc)
}

/// Positive powers of ten multiply.
pub proof fn lemma_pow10_sum(a: nat, b: nat)
    ensures
        pow10(a) * pow10(b) == pow10(a + b),
        pow10(a) > 0,
        pow10(b) > 0,
    decreases a,
{
    if a == 0 {
        lemma_pow10_pos(b);
    } else {
        lemma_pow10_sum((a - 1) as nat, b);
        let ghost x = pow10((a - 1) as nat);
        let ghost y = pow10(b);
        assert(pow10(a) == 10 * x);
        assert((10 * x) * y == 10 * (x * y)) by (nonlinear_arith);
        assert(((a - 1) as nat) + b == (a + b - 1) as nat);
        assert(x * y == pow10((a + b - 1) as nat));
        assert(pow10(a + b) == 10 * pow10((a + b - 1) as nat));
        assert(10 * x > 0 && y > 0 ==> (10 * x) * y > 0) by (nonlinear_arith);
    }
}

proof fn lemma_pow10_6()
    ensures
        pow10(6) == 1000000,
{
    assert(pow10(0) == 1);
    assert(pow10(1) == 10);
    assert(pow10(2) == 100);
    assert(pow10(3) == 1000);
    assert(pow10(4) == 10000);
    assert(pow10(5) == 100000);
    assert(pow10(6) == 1000000);
}

pub proof fn lemma_pow10_pos(k: nat)
    ensures
        pow10(k) > 0,
    decreases k,
{
    if k > 0 {
        lemma_pow10_pos((k - 1) as nat);
    }
}

/// The score of one srcset descriptor: its numeric prefix in millionths when
/// it ends in `w` or `x`, zero otherwise.
pub open spec fn spec_srcset_score(desc: Seq<char>) -> int {
    if desc.len() > 0 && (desc.last() == 'w' || desc.last() == 'x') {
        match spec_micro_sat(desc.drop_last()) {
            Some(x) => x,
            None => 0,
        }
    } else {
        0
    }
}

fn srcset_score(desc: &Vec<char>) -> (r: u64)
    ensures
        r as int == spec_srcset_score(desc@),
{
    if desc.len() == 0 {
        return 0;
    }
    let last = desc[desc.len() - 1];
    if last != 'w' && last != 'x' {
        return 0;
    }
    let head = subvec(desc, 0, desc.len() - 1);
    proof {
        assert(head@ =~= desc@.drop_last());
    }
    match decimal_micro(&head) {
        Some(x) => x,
        None => 0,
    }
}

/// The best candidate after folding a list of srcset parts: highest score
/// wins, first seen wins ties.
pub open spec fn spec_srcset_fold(
    parts: Seq<Seq<char>>,
    best: Option<(int, Seq<char>)>,
) -> Option<(int, Seq<char>)>
    decreases parts.len(),
{
    if parts.len() == 0 {
        best
    } else {
        let p = spec_trim(parts[0]);
        let rest = parts.drop_first();
        if p.len() == 0 {
            spec_srcset_fold(rest, best)
        } else {
            let toks = spec_ws_tokens(p);
            if toks.len() == 0 {
                spec_srcset_fold(rest, best)
            } else {
                let url = toks[0];
                let desc = if toks.len() >= 2 {
                    toks[1]
                } else {
                    Seq::empty()
                };
                let score = spec_srcset_score(desc);
                let take = match best {
                    None => true,
                    Some(b) => score > b.0,
                };
                spec_srcset_fold(
                    rest,
                    if take {
                        Some((score, url))
                    } else {
                        best
                    },
                )
            }
        }
    }
}

/// The URL picked from a srcset attribute, if any candidate survives.
pub open spec fn spec_srcset_best(s: Seq<char>) -> Option<Seq<char>> {
    match spec_srcset_fold(spec_split(s, ','), None) {
        Some(p) => Some(p.1),
        None => None,
    }
}

/// View of the running best candidate.
pub open spec fn best_view(b: Option<(u64, String)>) -> Option<(int, Seq<char>)> {
    match b {
        Some(p) => Some((p.0 as int, p.1@)),
        None => None,
    }
}

/// Picks the best-scored candidate of a `srcset` attribute: candidates split
/// on commas, each scored by its `w`/`x` descriptor, highest score kept,
/// ties keeping the first seen; malformed or empty candidates score zero or
/// are skipped.
pub fn choose_best_src_from_srcset(srcset: &str) -> (r: Option<String>)
    ensures
        (r is Some) == (spec_srcset_best(srcset@) is Some),
        r matches Some(u) ==> Some(u@) == spec_srcset_best(srcset@),
{
    let v = chars_of(srcset);
    let parts = split_on(&v, ',');
    let ghost pview = parts.deep_view();
    let mut best: Option<(u64, String)> = None;
    let mut i: usize = 0;
    proof {
        assert(pview.subrange(0, pview.len() as int) =~= pview);
    }
    while i < parts.len()
        invariant
            pview == parts.deep_view(),
            pview == spec_split(v@, ','),
            parts@.len() == pview.len(),
            i <= parts@.len(),
            spec_srcset_fold(pview.subrange(i as int, pview.len() as int), best_view(best))
                == spec_srcset_fold(pview, None),
        decreases parts.len() - i,
    {
        let ghost rest = pview.subrange(i as int, pview.len() as int);
        proof {
            assert(parts@[i as int]@ == pview[i as int]);
            assert(rest.drop_first() =~= pview.subrange(i + 1, pview.len() as int));
        }
        let t = trim_vec(&parts[i]);
        if t.len() == 0 {
            i = i + 1;
            continue ;
        }
        let toks = ws_tokens(&t);
        proof {
            lemma_trim_edges(pview[i as int]);
            assert(!is_ws_char(t@[0]));
            assert(spec_ws_tokens(t@).len() >= 1);
            assert(toks.deep_view() == spec_ws_tokens(t@));
            assert(toks@.len() == toks.deep_view().len());
        }
        let url = string_from_chars(&toks[0]);
        proof {
            assert(toks@[0]@ == toks.deep_view()[0]);
        }
        let score: u64 = if toks.len() >= 2 {
            proof {
                assert(toks@[1]@ == toks.deep_view()[1]);
            }
            srcset_score(&toks[1])
        } else {
            let empty: Vec<char> = Vec::new();
            srcset_score(&empty)
        };
        let take = match &best {
            None => true,
            Some(b) => score > b.0,
        };
        if take {
            best = Some((score, url));
        }
        i = i + 1;
    }
    proof {
        assert(pview.subrange(i as int, pview.len() as int) =~= Seq::<Seq<char>>::empty());
    }
    match best {
        Some(p) => Some(p.1),
        None => None,
    }
}

/// View of an optional borrowed string.
pub open spec fn opt_str_view(o: Option<&str>) -> Option<Seq<char>> {
    match o {
        Some(s) => Some(s@),
        None => None,
    }
}

/// The same-document anchor a resolved in-topic permalink rewrites to, from
/// the resolved URL's parts: hosts must agree; a fragment already of the form
/// `post_<n>` passes through; otherwise the path must read `/t/…` with the
/// expected topic id in its second or third segment and the post number just
/// after it.
pub open spec fn spec_anchor_from_parts(
    base_host: Option<Seq<char>>,
    host: Option<Seq<char>>,
    path: Seq<char>,
    fragment: Option<Seq<char>>,
    topic_id: u64,
) -> Option<Seq<char>> {
    if host != base_host {
        None
    } else if fragment matches Some(f) && has_prefix(f, "post_"@) {
        Some(seq!['#'] + fragment->Some_0)
    } else if path.len() == 0 || path[0] != '/' {
        None
    } else {
        let segs = spec_split(path.drop_first(), '/');
        if segs.len() == 0 || segs[0] != "t"@ {
            None
        } else {
            let t1 = if segs.len() > 1 {
                spec_parse_u64(segs[1])
            } else {
                None
            };
            if t1 is Some {
                if t1->Some_0 == topic_id && segs.len() > 2 {
                    match spec_parse_u64(segs[2]) {
                        Some(p) => Some("#post_"@ + spec_dec_digits(p as int)),
                        None => None,
                    }
                } else {
                    None
                }
            } else {
                if segs.len() > 2 {
                    match spec_parse_u64(segs[2]) {
                        Some(t) => if t == topic_id && segs.len() > 3 {
                            match spec_parse_u64(segs[3]) {
                                Some(p) => Some("#post_"@ + spec_dec_digits(p as int)),
                                None => None,
                            }
                        } else {
                            None
                        },
                        None => None,
                    }
                } else {
                    None
                }
            }
        }
    }
}

fn opt_str_eq(a: Option<&str>, b: Option<&str>) -> (r: bool)
    ensures
        r == (opt_str_view(a) == opt_str_view(b)),
{
    match (a, b) {
        (Some(x), Some(y)) => {
            let xv = chars_of(x);
            let yv = chars_of(y);
            vecs_eq(&xv, &yv)
        },
        (None, None) => true,
        _ => {
            proof {
                assert(opt_str_view(a) != opt_str_view(b));
            }
            false
        },
    }
}

fn anchor_of_post(p: u64) -> (r: String)
    ensures
        r@ == "#post_"@ + spec_dec_digits(p as int),
{
    let mut r = String::from_str("#post_");
    let d = u64_to_dec(p);
    r.append(d.as_str());
    r
}

/// Computes the anchor for a permalink from the resolved URL's parts.
pub fn topic_anchor_from_parts(
    base_host: Option<&str>,
    host: Option<&str>,
    path: &str,
    fragment: Option<&str>,
    topic_id: u64,
) -> (r: Option<String>)
    ensures
        (r is Some) == (spec_anchor_from_parts(
            opt_str_view(base_host),
            opt_str_view(host),
            path@,
            opt_str_view(fragment),
            topic_id,
        ) is Some),
        r matches Some(a) ==> Some(a@) == spec_anchor_from_parts(
            opt_str_view(base_host),
            opt_str_view(host),
            path@,
            opt_str_view(fragment),
            topic_id,
        ),
{
    if !opt_str_eq(host, base_host) {
        return None;
    }
    if let Some(f) = fragment {
        let fv = chars_of(f);
        let post_pat = chars_of("post_");
        if match_at(&fv, &post_pat, 0) {
            let mut a = String::from_str("#");
            a.append(f);
            proof {
                reveal_strlit("#");
                assert(a@ =~= seq!['#'] + f@);
            }
            return Some(a);
        }
    }
    let pv = chars_of(path);
    if pv.len() == 0 || pv[0] != '/' {
        return None;
    }
    let rest = subvec(&pv, 1, pv.len());
    proof {
        assert(rest@ =~= pv@.drop_first());
    }
    let segs = split_on(&rest, '/');
    let ghost sview = spec_split(pv@.drop_first(), '/');
    proof {
        assert(segs.deep_view() == sview);
        assert(segs@.len() == sview.len());
    }
    if segs.len() == 0 {
        return None;
    }
    let t_pat = chars_of("t");
    proof {
        assert(segs@[0]@ == sview[0]);
    }
    if !vecs_eq(&segs[0], &t_pat) {
        return None;
    }
    let t1: Option<u64> = if segs.len() > 1 {
        proof {
            assert(segs@[1]@ == sview[1]);
        }
        parse_u64(&segs[1])
    } else {
        None
    };
    match t1 {
        Some(t) => {
            if t == topic_id && segs.len() > 2 {
                proof {
                    assert(segs@[2]@ == sview[2]);
                }
                match parse_u64(&segs[2]) {
                    Some(p) => Some(anchor_of_post(p)),
                    None => None,
                }
            } else {
                None
            }
        },
        None => {
            if segs.len() > 2 {
                proof {
                    assert(segs@[2]@ == sview[2]);
                }
                match parse_u64(&segs[2]) {
                    Some(t) => {
                        if t == topic_id && segs.len() > 3 {
                            proof {
                                assert(segs@[3]@ == sview[3]);
                            }
                            match parse_u64(&segs[3]) {
                                Some(p) => Some(anchor_of_post(p)),
                                None => None,
                            }
                        } else {
                            None
                        }
                    },
                    None => None,
                }
            } else {
                None
            }
        },
    }
}

/// The anchor a href rewrites to when it is a same-site in-topic permalink:
/// the href is resolved like any reference (but untrimmed), and the resolved
/// URL's parts are then judged by `spec_anchor_from_parts`.
pub open spec fn spec_topic_local_anchor(base: BaseUrl, topic_id: u64, href: Seq<char>) -> Option<
    Seq<char>,
> {
    let resolved = if has_prefix(href, "http://"@) || has_prefix(href, "https://"@) {
        crate::urlres::url_parse_norm(href)
    } else if has_prefix(href, "//"@) {
        crate::urlres::url_parse_norm(base.scheme@ + seq![':'] + href)
    } else {
        crate::urlres::url_join_norm(base.full@, href)
    };
    match resolved {
        None => None,
        Some(u) => match crate::urlres::url_path_of(u) {
            None => None,
            Some(p) => spec_anchor_from_parts(
                (match base.host {
                    Some(h) => Some(h@),
                    None => None,
                }),
                crate::urlres::url_host_of(u),
                p,
                crate::urlres::url_fragment_of(u),
                topic_id,
            ),
        },
    }
}

/// Rewrites a same-site in-topic permalink to a same-document anchor.
pub fn topic_local_anchor(base: &BaseUrl, topic_id: u64, href: &str) -> (r: Option<String>)
    ensures
        (r is Some) == (spec_topic_local_anchor(*base, topic_id, href@) is Some),
        r matches Some(a) ==> Some(a@) == spec_topic_local_anchor(*base, topic_id, href@),
{
    let hv = chars_of(href);
    let http = chars_of("http://");
    let https = chars_of("https://");
    let proto = chars_of("//");
    let resolved: Option<String> = if match_at(&hv, &http, 0) || match_at(&hv, &https, 0) {
        crate::urlres::url_parse(href)
    } else if match_at(&hv, &proto, 0) {
        let mut u = base.scheme.clone();
        u.append(":");
        u.append(href);
        proof {
            reveal_strlit(":");
            assert(u@ =~= base.scheme@ + seq![':'] + href@);
        }
        crate::urlres::url_parse(u.as_str())
    } else {
        crate::urlres::url_join(base.full.as_str(), href)
    };
    let u = match resolved {
        Some(u) => u,
        None => {
            return None;
        },
    };
    let path = match crate::urlres::url_path(u.as_str()) {
        Some(p) => p,
        None => {
            return None;
        },
    };
    let host = crate::urlres::url_host(u.as_str());
    let fragment = crate::urlres::url_fragment(u.as_str());
    let base_host: Option<&str> = match &base.host {
        Some(h) => Some(h.as_str()),
        None => None,
    };
    topic_anchor_from_parts(
        base_host,
        match &host {
            Some(h) => Some(h.as_str()),
            None => None,
        },
        path.as_str(),
        match &fragment {
            Some(f) => Some(f.as_str()),
            None => None,
        },
        topic_id,
    )
}

/// What happens to one `<a href>`: it becomes a same-document anchor, it is
/// absolutized, or it stays as it is.
#[derive(Debug)]
pub enum HrefAction {
    Anchor(String),
    Absolutize(String),
    Keep,
}

/// Decides what happens to a link's href: an in-topic permalink becomes an
/// anchor; otherwise a rewritable relative reference is absolutized against
/// the base when it resolves; everything else is kept unchanged.
pub fn plan_href(base: &BaseUrl, topic_id: u64, href: &str) -> (r: HrefAction)
    ensures
        (spec_topic_local_anchor(*base, topic_id, href@) matches Some(a) ==> r matches
            HrefAction::Anchor(s) && s@ == a),
        (spec_topic_local_anchor(*base, topic_id, href@) is None && spec_should_absolutize(href@)
            && spec_resolve_any(*base, href@) is Some) ==> (r matches HrefAction::Absolutize(u)
            && Some(u@) == spec_resolve_any(*base, href@)),
        (spec_topic_local_anchor(*base, topic_id, href@) is None && !(spec_should_absolutize(href@)
            && spec_resolve_any(*base, href@) is Some)) ==> r is Keep,
{
    if let Some(a) = topic_local_anchor(base, topic_id, href) {
        return HrefAction::Anchor(a);
    }
    if should_absolutize_href(href) {
        if let Some(u) = crate::urlres::resolve_any_url(base, href) {
            return HrefAction::Absolutize(u);
        }
    }
    HrefAction::Keep
}

/// What happens to an `<img>` or `<source>`: fetch one image URL (possibly
/// dropping a `srcset`), or leave the element alone.
#[derive(Debug)]
pub enum MediaPlan {
    Fetch { url: String, drop_srcset: bool },
    Keep,
}

/// The plan for an `<img>`: the best srcset candidate when one exists, else
/// its plain `src` unless empty or already inline. `None` stands for a
/// reference that would not resolve, which aborts the render.
pub open spec fn spec_img_plan(
    base: BaseUrl,
    srcset: Option<Seq<char>>,
    src: Option<Seq<char>>,
) -> Option<Option<(Seq<char>, bool)>> {
    let best = match srcset {
        Some(ss) => spec_srcset_best(ss),
        None => None,
    };
    match best {
        Some(b) => match spec_resolve_any(base, b) {
            Some(u) => Some(Some((u, true))),
            None => None,
        },
        None => spec_src_plan(base, src),
    }
}

/// The plan drawn from a plain `src` attribute alone.
pub open spec fn spec_src_plan(base: BaseUrl, src: Option<Seq<char>>) -> Option<
    Option<(Seq<char>, bool)>,
> {
    match src {
        Some(s) => {
            let t = spec_trim(s);
            if t.len() == 0 || has_prefix(t, "data:"@) {
                Some(None)
            } else {
                match spec_resolve_any(base, t) {
                    Some(u) => Some(Some((u, false))),
                    None => None,
                }
            }
        },
        None => Some(None),
    }
}

/// The plan for a `<source>`: as for `<img>`, except that a `srcset` without
/// a usable candidate leaves the element alone instead of falling back to
/// `src`.
pub open spec fn spec_source_plan(
    base: BaseUrl,
    srcset: Option<Seq<char>>,
    src: Option<Seq<char>>,
) -> Option<Option<(Seq<char>, bool)>> {
    match srcset {
        Some(ss) => match spec_srcset_best(ss) {
            Some(b) => match spec_resolve_any(base, b) {
                Some(u) => Some(Some((u, true))),
                None => None,
            },
            None => Some(None),
        },
        None => spec_src_plan(base, src),
    }
}

/// View of a media plan.
pub open spec fn media_plan_view(r: MediaPlan) -> Option<(Seq<char>, bool)> {
    match r {
        MediaPlan::Fetch { url, drop_srcset } => Some((url@, drop_srcset)),
        MediaPlan::Keep => None,
    }
}

fn src_plan(base: &BaseUrl, src: Option<&str>) -> (r: Result<MediaPlan, BadUrl>)
    ensures
        (r is Ok) == (spec_src_plan(*base, opt_str_view(src)) is Some),
        r matches Ok(p) ==> Some(media_plan_view(p)) == spec_src_plan(*base, opt_str_view(src)),
{
    let s = match src {
        Some(s) => s,
        None => {
            return Ok(MediaPlan::Keep);
        },
    };
    let sv = chars_of(s);
    let t = trim_vec(&sv);
    let data = chars_of("data:");
    if t.len() == 0 || match_at(&t, &data, 0) {
        return Ok(MediaPlan::Keep);
    }
    proof {
        lemma_trim_idempotent(sv@);
    }
    match resolve_any_vec(base, &t) {
        Some(u) => Ok(MediaPlan::Fetch { url: u, drop_srcset: false }),
        None => Err(BadUrl { raw: string_from_chars(&t) }),
    }
}

/// Plans the rewrite of an `<img>` element from its attributes.
pub fn plan_img(base: &BaseUrl, srcset: Option<&str>, src: Option<&str>) -> (r: Result<
    MediaPlan,
    BadUrl,
>)
    ensures
        (r is Ok) == (spec_img_plan(*base, opt_str_view(srcset), opt_str_view(src)) is Some),
        r matches Ok(p) ==> Some(media_plan_view(p)) == spec_img_plan(
            *base,
            opt_str_view(srcset),
            opt_str_view(src),
        ),
{
    if let Some(ss) = srcset {
        if let Some(best) = choose_best_src_from_srcset(ss) {
            let bv = chars_of(best.as_str());
            let t = trim_vec(&bv);
            proof {
                lemma_trim_idempotent(bv@);
            }
            return match resolve_any_vec(base, &t) {
                Some(u) => Ok(MediaPlan::Fetch { url: u, drop_srcset: true }),
                None => Err(BadUrl { raw: best }),
            };
        }
    }
    src_plan(base, src)
}

/// Plans the rewrite of a `<source>` element from its attributes.
pub fn plan_source(base: &BaseUrl, srcset: Option<&str>, src: Option<&str>) -> (r: Result<
    MediaPlan,
    BadUrl,
>)
    ensures
        (r is Ok) == (spec_source_plan(*base, opt_str_view(srcset), opt_str_view(src)) is Some),
        r matches Ok(p) ==> Some(media_plan_view(p)) == spec_source_plan(
            *base,
            opt_str_view(srcset),
            opt_str_view(src),
        ),
{
    if let Some(ss) = srcset {
        if let Some(best) = choose_best_src_from_srcset(ss) {
            let bv = chars_of(best.as_str());
            let t = trim_vec(&bv);
            proof {
                lemma_trim_idempotent(bv@);
            }
            return match resolve_any_vec(base, &t) {
                Some(u) => Ok(MediaPlan::Fetch { url: u, drop_srcset: true }),
                None => Err(BadUrl { raw: best }),
            };
        }
        return Ok(MediaPlan::Keep);
    }
    src_plan(base, src)
}

/// Plans the rewrite of an `<a class="lightbox">` href: image-looking hrefs
/// are fetched at their resolved URL, anything else stays.
pub fn plan_lightbox(base: &BaseUrl, href: &str) -> (r: Result<Option<String>, BadUrl>)
    ensures
        !spec_looks_like_image_url(href@) ==> (r matches Ok(o) && o is None),
        (spec_looks_like_image_url(href@) && spec_resolve_any(*base, href@) is Some) ==> (r matches
            Ok(o) && o matches Some(u) && Some(u@) == spec_resolve_any(*base, href@)),
        (spec_looks_like_image_url(href@) && spec_resolve_any(*base, href@) is None) ==> r is Err,
{
    if !looks_like_image_url(href) {
        return Ok(None);
    }
    match crate::urlres::resolve_any_url(base, href) {
        Some(u) => Ok(Some(u)),
        None => Err(BadUrl { raw: String::from_str(href) }),
    }
}

/// A `url()` target inside a `style` attribute that is left untouched: the
/// non-fetchable references — empty, a `data:`/`about:`/`blob:` scheme, or a
/// fragment.
pub open spec fn spec_style_inert(raw: Seq<char>) -> bool {
    ||| raw.len() == 0
    ||| has_prefix(raw, "data:"@)
    ||| has_prefix(raw, "about:"@)
    ||| has_prefix(raw, "#"@)
    ||| has_prefix(raw, "blob:"@)
}

fn style_inert(raw: &str) -> (r: bool)
    ensures
        r == spec_style_inert(raw@),
{
    let v = chars_of(raw);
    let data = chars_of("data:");
    let about = chars_of("about:");
    let hash = chars_of("#");
    let blob = chars_of("blob:");
    v.len() == 0 || match_at(&v, &data, 0) || match_at(&v, &about, 0) || match_at(&v, &hash, 0)
        || match_at(&v, &blob, 0)
}

/// The resolved URLs of the fetchable `url()` references in a style
/// attribute, in order; `None` when one does not resolve.
pub open spec fn spec_style_requests(base: BaseUrl, s: Seq<char>, from: int) -> Option<
    Seq<Seq<char>>,
>
    decreases s.len() - from,
{
    match crate::cssscan::spec_find_url(s, from) {
        None => Some(Seq::empty()),
        Some((st, en, raw)) => {
            let next = if en > from {
                en
            } else {
                from + 1
            };
            if next > s.len() || from < 0 {
                Some(Seq::empty())
            } else if spec_style_inert(raw) {
                spec_style_requests(base, s, next)
            } else {
                match spec_resolve_any(base, raw) {
                    None => None,
                    Some(u) => match spec_style_requests(base, s, next) {
                        None => None,
                        Some(rest) => Some(seq![u] + rest),
                    },
                }
            }
        },
    }
}

/// How many fetchable `url()` references a style attribute holds.
pub open spec fn spec_style_count(s: Seq<char>, from: int) -> int
    decreases s.len() - from,
{
    match crate::cssscan::spec_find_url(s, from) {
        None => 0,
        Some((st, en, raw)) => {
            let next = if en > from {
                en
            } else {
                from + 1
            };
            if next > s.len() || from < 0 {
                0
            } else if spec_style_inert(raw) {
                spec_style_count(s, next)
            } else {
                1 + spec_style_count(s, next)
            }
        },
    }
}

/// Collects the asset URLs a `style` attribute needs, resolved against the
/// base; a target that does not resolve aborts the render.
pub fn style_url_requests(base: &BaseUrl, style: &str) -> (r: Result<Vec<String>, BadUrl>)
    ensures
        (r is Ok) == (spec_style_requests(*base, style@, 0) is Some),
        r matches Ok(us) ==> Some(us@.map_values(|s: String| s@)) == spec_style_requests(
            *base,
            style@,
            0,
        ),
{
    let v = chars_of(style);
    let mut out: Vec<String> = Vec::new();
    let mut pos: usize = 0;
    proof {
        assert(out@.map_values(|s: String| s@) =~= Seq::<Seq<char>>::empty());
    }
    loop
        invariant_except_break
            v@ == style@,
            pos <= v@.len(),
            (match spec_style_requests(*base, style@, pos as int) {
                None => spec_style_requests(*base, style@, 0) is None,
                Some(rest) => spec_style_requests(*base, style@, 0) == Some(
                    out@.map_values(|s: String| s@) + rest,
                ),
            }),
        ensures
            Some(out@.map_values(|s: String| s@)) == spec_style_requests(*base, style@, 0),
        decreases v@.len() - pos,
    {
        let ghost acc0 = out@.map_values(|s: String| s@);
        match crate::cssscan::find_url_ref(&v, pos) {
            None => {
                proof {
                    assert(spec_style_requests(*base, style@, pos as int) == Some(
                        Seq::<Seq<char>>::empty(),
                    ));
                    assert(acc0 + Seq::<Seq<char>>::empty() =~= acc0);
                }
                break ;
            },
            Some(u) => {
                if style_inert(u.raw.as_str()) {
                    pos = u.end;
                    continue ;
                }
                match crate::urlres::resolve_any_url(base, u.raw.as_str()) {
                    None => {
                        return Err(BadUrl { raw: u.raw });
                    },
                    Some(resolved) => {
                        out.push(resolved);
                        proof {
                            assert(out@.map_values(|s: String| s@) =~= acc0.push(out@.last()@));
                            assert forall|rest: Seq<Seq<char>>|
                                true implies acc0 + (seq![out@.last()@] + rest) =~= acc0.push(
                                out@.last()@,
                            ) + rest by {}
                        }
                        pos = u.end;
                    },
                }
            },
        }
    }
    Ok(out)
}

/// The style attribute with its fetchable `url()` references rewritten to
/// the given replacements, in order, each substituted as `url("...")` with
/// embedded quotes escaped; inert references pass through verbatim.
pub open spec fn spec_apply_style(s: Seq<char>, from: int, results: Seq<Seq<char>>) -> Seq<char>
    decreases s.len() - from,
{
    if from < 0 || from > s.len() {
        Seq::empty()
    } else {
        match crate::cssscan::spec_find_url(s, from) {
            None => s.subrange(from, s.len() as int),
            Some((st, en, raw)) => {
                let next = if en > from {
                    en
                } else {
                    from + 1
                };
                if next > s.len() || st < from || st > en || en > s.len() {
                    s.subrange(from, s.len() as int)
                } else if spec_style_inert(raw) {
                    s.subrange(from, en) + spec_apply_style(s, next, results)
                } else {
                    s.subrange(from, st) + "url(\""@ + crate::cssbundle::spec_escape_double_quotes(
                        results.first(),
                    ) + "\")"@ + spec_apply_style(s, next, results.drop_first())
                }
            },
        }
    }
}

pub proof fn lemma_style_count_nonneg(s: Seq<char>, from: int)
    ensures
        spec_style_count(s, from) >= 0,
    decreases s.len() - from,
{
    match crate::cssscan::spec_find_url(s, from) {
        None => {},
        Some((st, en, raw)) => {
            let next = if en > from {
                en
            } else {
                from + 1
            };
            if next > s.len() || from < 0 {
            } else {
                lemma_style_count_nonneg(s, next);
            }
        },
    }
}

/// Rewrites a style attribute from the settled replacements; `None` when
/// fewer replacements are given than the attribute needs.
pub fn apply_style_rewrites(style: &str, results: &Vec<String>) -> (r: Option<String>)
    ensures
        (r is Some) == (results@.len() >= spec_style_count(style@, 0)),
        r matches Some(out) ==> out@ == spec_apply_style(style@, 0, results@.map_values(
            |s: String| s@,
        )),
{
    let v = chars_of(style);
    let ghost rall = results@.map_values(|s: String| s@);
    let mut out = String::new();
    let mut pos: usize = 0;
    let mut idx: usize = 0;
    proof {
        assert(rall.subrange(0, rall.len() as int) =~= rall);
        assert(out@ + spec_apply_style(style@, 0, rall) =~= spec_apply_style(style@, 0, rall));
    }
    loop
        invariant_except_break
            v@ == style@,
            pos <= v@.len(),
            idx <= results@.len(),
            rall == results@.map_values(|s: String| s@),
            rall.len() == results@.len(),
            out@ + spec_apply_style(style@, pos as int, rall.subrange(idx as int, rall.len() as int))
                =~= spec_apply_style(style@, 0, rall),
            (results@.len() - idx >= spec_style_count(style@, pos as int)) == (results@.len()
                >= spec_style_count(style@, 0)),
        ensures
            out@ == spec_apply_style(style@, 0, rall),
            results@.len() >= spec_style_count(style@, 0),
        decreases v@.len() - pos,
    {
        let ghost rleft = rall.subrange(idx as int, rall.len() as int);
        match crate::cssscan::find_url_ref(&v, pos) {
            None => {
                let tail = subvec(&v, pos, v.len());
                let ts = string_from_chars(&tail);
                out.append(ts.as_str());
                proof {
                    assert(spec_style_count(style@, pos as int) == 0);
                }
                break ;
            },
            Some(u) => {
                if style_inert(u.raw.as_str()) {
                    let lit = subvec(&v, pos, u.end);
                    let ls = string_from_chars(&lit);
                    out.append(ls.as_str());
                    proof {
                        assert(out@ + spec_apply_style(style@, u.end as int, rleft)
                            =~= spec_apply_style(style@, 0, rall));
                    }
                    pos = u.end;
                    continue ;
                }
                if idx >= results.len() {
                    proof {
                        lemma_style_count_nonneg(style@, u.end as int);
                        assert(spec_style_count(style@, pos as int) == 1 + spec_style_count(
                            style@,
                            u.end as int,
                        ));
                    }
                    return None;
                }
                let pre = subvec(&v, pos, u.start);
                let ps = string_from_chars(&pre);
                out.append(ps.as_str());
                out.append("url(\"");
                let esc = crate::cssbundle::escape_double_quotes(results[idx].as_str());
                out.append(esc.as_str());
                out.append("\")");
                proof {
                    assert(rleft.first() == rall[idx as int]);
                    assert(rleft.drop_first() =~= rall.subrange(idx + 1, rall.len() as int));
                    assert(out@ + spec_apply_style(
                        style@,
                        u.end as int,
                        rall.subrange(idx + 1, rall.len() as int),
                    ) =~= spec_apply_style(style@, 0, rall));
                }
                idx = idx + 1;
                pos = u.end;
            },
        }
    }
    Some(out)
}

} // verus!
