//! Scanners for the two CSS constructs the bundler rewrites: `url(...)`
//! references and `@import` directives.
//!
//! Each matcher is specified by a spec function that defines what a match at
//! one position is — double- or single-quoted or bare target, optional
//! whitespace, for imports an optional `url(` wrapper and a trailing media
//! clause — and the finders return the first match at or after a position.

use vstd::prelude::*;

use crate::strutil::{
    chars_of, find_char, find_char_from, find_non_ws, is_ws_char, lemma_find_char_at,
    lemma_find_non_ws_at, match_at, skip_ws_from, spec_strip_char, spec_trim, string_from_chars,
    strip_char_vec, sub_at, subvec, trim_vec,
};

verus! {

/// How a matched target text is cleaned: trimmed, then stripped of edge
/// double quotes, then of edge single quotes.
pub open spec fn clean_raw(s: Seq<char>) -> Seq<char> {
    spec_strip_char(spec_strip_char(spec_trim(s), '"'), '\'')
}

fn clean_raw_vec(v: &Vec<char>) -> (r: Vec<char>)
    ensures
        r@ == clean_raw(v@),
{
    let t = trim_vec(v);
    let a = strip_char_vec(&t, '"');
    strip_char_vec(&a, '\'')
}

/// A `url(...)` reference: where it starts and ends, and the cleaned target.
pub struct UrlRef {
    pub start: usize,
    pub end: usize,
    pub raw: String,
}

/// The bare form of a `url(` body: everything up to the closing parenthesis,
/// non-empty. `j` is where the body starts.
pub open spec fn spec_url_bare(s: Seq<char>, j: int) -> Option<(int, Seq<char>)> {
    let k = j + find_char(s.subrange(j, s.len() as int), ')');
    if k < s.len() && k > j {
        Some((k + 1, clean_raw(s.subrange(j, k))))
    } else {
        None
    }
}

/// A `url(...)` match at position `i` (where `url(` stands): a quoted body
/// when a non-empty quoted string is followed (after whitespace) by `)`,
/// else the bare body. The result is the end position and cleaned target.
pub open spec fn spec_url_match_at(s: Seq<char>, i: int) -> Option<(int, Seq<char>)> {
    let j = i + 4 + find_non_ws(s.subrange(i + 4, s.len() as int));
    if j < s.len() && (s[j] == '"' || s[j] == '\'') {
        let q = s[j];
        let k = j + 1 + find_char(s.subrange(j + 1, s.len() as int), q);
        if k < s.len() && k > j + 1 {
            let m = k + 1 + find_non_ws(s.subrange(k + 1, s.len() as int));
            if m < s.len() && s[m] == ')' {
                Some((m + 1, clean_raw(s.subrange(j + 1, k))))
            } else {
                spec_url_bare(s, j)
            }
        } else {
            spec_url_bare(s, j)
        }
    } else {
        spec_url_bare(s, j)
    }
}

fn url_bare(v: &Vec<char>, j: usize) -> (r: Option<(usize, Vec<char>)>)
    requires
        j <= v@.len(),
    ensures
        (r is Some) == (spec_url_bare(v@, j as int) is Some),
        r matches Some(p) ==> Some((p.0 as int, p.1@)) == spec_url_bare(v@, j as int) && j < p.0
            <= v@.len(),
{
    let k = find_char_from(v, ')', j);
    proof {
        lemma_find_char_at(v@.subrange(j as int, v@.len() as int), ')', k - j);
    }
    if k < v.len() && k > j {
        let body = subvec(v, j, k);
        Some((k + 1, clean_raw_vec(&body)))
    } else {
        None
    }
}

/// Parses a `url(` body at position `i`; the caller has seen `url(` there.
pub fn url_match_at(v: &Vec<char>, i: usize) -> (r: Option<(usize, Vec<char>)>)
    requires
        i + 4 <= v@.len(),
    ensures
        (r is Some) == (spec_url_match_at(v@, i as int) is Some),
        r matches Some(p) ==> Some((p.0 as int, p.1@)) == spec_url_match_at(v@, i as int) && i < p.0
            <= v@.len(),
{
    let n = v.len();
    proof {
        assert(i + 4 <= n);
    }
    let j = skip_ws_from(v, i + 4);
    if j < v.len() && (v[j] == '"' || v[j] == '\'') {
        let q = v[j];
        let k = find_char_from(v, q, j + 1);
        proof {
            lemma_find_char_at(v@.subrange(j + 1, v@.len() as int), q, k - j - 1);
        }
        if k < v.len() && k > j + 1 {
            let m = skip_ws_from(v, k + 1);
            if m < v.len() && v[m] == ')' {
                let body = subvec(v, j + 1, k);
                return Some((m + 1, clean_raw_vec(&body)));
            }
        }
        url_bare(v, j)
    } else {
        url_bare(v, j)
    }
}

/// The first `url(...)` match at or after `from`.
pub open spec fn spec_find_url(s: Seq<char>, from: int) -> Option<(int, int, Seq<char>)>
    decreases s.len() - from,
{
    if from < 0 || from + 4 > s.len() {
        None
    } else if sub_at(s, "url("@, from) && spec_url_match_at(s, from) is Some {
        let m = spec_url_match_at(s, from)->Some_0;
        Some((from, m.0, m.1))
    } else {
        spec_find_url(s, from + 1)
    }
}

/// Scans for the first `url(...)` reference at or after `from`.
pub fn find_url_ref(v: &Vec<char>, from: usize) -> (r: Option<UrlRef>)
    requires
        from <= v@.len(),
    ensures
        (r is Some) == (spec_find_url(v@, from as int) is Some),
        r matches Some(u) ==> Some((u.start as int, u.end as int, u.raw@)) == spec_find_url(
            v@,
            from as int,
        ) && from <= u.start && u.start < u.end <= v@.len(),
{
    let pat = chars_of("url(");
    proof {
        reveal_strlit("url(");
    }
    let mut i: usize = from;
    loop
        invariant_except_break
            from <= i,
            i <= v@.len() + 1,
            pat@ == "url("@,
            pat@.len() == 4,
            spec_find_url(v@, from as int) == spec_find_url(v@, i as int),
        ensures
            spec_find_url(v@, from as int) is None,
        decreases v@.len() + 1 - i,
    {
        if i >= v.len() || v.len() - i < 4 {
            proof {
                assert(spec_find_url(v@, i as int) is None);
            }
            break ;
        }
        if match_at(v, &pat, i) {
            if let Some(m) = url_match_at(v, i) {
                proof {
                    assert(spec_find_url(v@, i as int) == Some((i as int, m.0 as int, m.1@)));
                }
                return Some(UrlRef { start: i, end: m.0, raw: string_from_chars(&m.1) });
            }
        }
        proof {
            assert(spec_find_url(v@, i as int) == spec_find_url(v@, i + 1));
        }
        i = i + 1;
    }
    None
}

/// An `@import` directive: its extent, the cleaned target, and the media
/// clause (possibly empty).
pub struct ImportRef {
    pub start: usize,
    pub end: usize,
    pub raw: String,
    pub media: String,
}

/// The bare form of an import target: everything up to the next `)` or `;`,
/// non-empty, trimmed. `j` is where the target starts.
pub open spec fn spec_import_bare(s: Seq<char>, j: int) -> Option<(int, Seq<char>)> {
    let k = j + find_stop(s.subrange(j, s.len() as int));
    if k < s.len() && k > j {
        Some((k, spec_trim(s.subrange(j, k))))
    } else {
        None
    }
}

/// Index of the first `)` or `;`, or `s.len()` if none.
pub open spec fn find_stop(s: Seq<char>) -> nat
    decreases s.len(),
{
    if s.len() == 0 {
        0
    } else if s[0] == ')' || s[0] == ';' {
        0
    } else {
        1 + find_stop(s.drop_first())
    }
}

pub proof fn lemma_find_stop_at(s: Seq<char>, i: int)
    requires
        0 <= i <= s.len(),
        forall|k: int| 0 <= k < i ==> s[k] != ')' && s[k] != ';',
        i < s.len() ==> s[i] == ')' || s[i] == ';',
    ensures
        find_stop(s) == i,
    decreases i,
{
    if i == 0 {
        if s.len() > 0 && s[0] != ')' && s[0] != ';' {
            assert(false);
        }
    } else {
        lemma_find_stop_at(s.drop_first(), i - 1);
    }
}

fn find_stop_from(v: &Vec<char>, from: usize) -> (r: usize)
    requires
        from <= v@.len(),
    ensures
        from <= r <= v@.len(),
        r - from == find_stop(v@.subrange(from as int, v@.len() as int)),
        r < v@.len() ==> v@[r as int] == ')' || v@[r as int] == ';',
{
    let mut i: usize = from;
    while i < v.len() && v[i] != ')' && v[i] != ';'
        invariant
            from <= i <= v@.len(),
            forall|k: int| from <= k < i ==> v@[k] != ')' && v@[k] != ';',
        decreases v.len() - i,
    {
        i = i + 1;
    }
    proof {
        lemma_find_stop_at(v@.subrange(from as int, v@.len() as int), i - from);
    }
    i
}

/// The target part of an import at body position `j`: a non-empty quoted
/// string, or the bare run up to `)` or `;`. Yields the position after the
/// target and the cleaned target.
pub open spec fn spec_import_target(s: Seq<char>, j: int) -> Option<(int, Seq<char>)> {
    if j < s.len() && (s[j] == '"' || s[j] == '\'') {
        let q = s[j];
        let k = j + 1 + find_char(s.subrange(j + 1, s.len() as int), q);
        if k < s.len() && k > j + 1 {
            Some((k + 1, spec_trim(s.subrange(j + 1, k))))
        } else {
            spec_import_bare(s, j)
        }
    } else {
        spec_import_bare(s, j)
    }
}

/// An `@import` match at position `i` (where `@import` stands): at least one
/// whitespace character, an optional `url(` wrapper, the target, an optional
/// closing parenthesis, then everything up to the mandatory `;` as the media
/// clause. Yields the end position (after `;`), target, and trimmed media.
pub open spec fn spec_import_match_at(s: Seq<char>, i: int) -> Option<(int, Seq<char>, Seq<char>)> {
    if i + 7 >= s.len() || !is_ws_char(s[i + 7]) {
        None
    } else {
        let j0 = i + 7 + find_non_ws(s.subrange(i + 7, s.len() as int));
        let j = if sub_at(s, "url("@, j0) {
            j0 + 4 + find_non_ws(s.subrange(j0 + 4, s.len() as int))
        } else {
            j0
        };
        match spec_import_target(s, j) {
            None => None,
            Some((after, raw)) => {
                let a1 = after + find_non_ws(s.subrange(after, s.len() as int));
                let a2 = if a1 < s.len() && s[a1] == ')' {
                    a1 + 1
                } else {
                    a1
                };
                let a3 = a2 + find_non_ws(s.subrange(a2, s.len() as int));
                let m = a3 + find_char(s.subrange(a3, s.len() as int), ';');
                if m < s.len() {
                    Some((m + 1, raw, spec_trim(s.subrange(a3, m))))
                } else {
                    None
                }
            },
        }
    }
}

fn import_bare(v: &Vec<char>, j: usize) -> (r: Option<(usize, Vec<char>)>)
    requires
        j <= v@.len(),
    ensures
        (r is Some) == (spec_import_bare(v@, j as int) is Some),
        r matches Some(p) ==> Some((p.0 as int, p.1@)) == spec_import_bare(v@, j as int) && j < p.0
            <= v@.len(),
{
    let k = find_stop_from(v, j);
    if k < v.len() && k > j {
        let body = subvec(v, j, k);
        Some((k, trim_vec(&body)))
    } else {
        None
    }
}

fn import_target(v: &Vec<char>, j: usize) -> (r: Option<(usize, Vec<char>)>)
    requires
        j <= v@.len(),
    ensures
        (r is Some) == (spec_import_target(v@, j as int) is Some),
        r matches Some(p) ==> Some((p.0 as int, p.1@)) == spec_import_target(v@, j as int) && j
            < p.0 <= v@.len(),
{
    if j < v.len() && (v[j] == '"' || v[j] == '\'') {
        let q = v[j];
        let k = find_char_from(v, q, j + 1);
        proof {
            lemma_find_char_at(v@.subrange(j + 1, v@.len() as int), q, k - j - 1);
        }
        if k < v.len() && k > j + 1 {
            let body = subvec(v, j + 1, k);
            return Some((k + 1, trim_vec(&body)));
        }
        import_bare(v, j)
    } else {
        import_bare(v, j)
    }
}

/// Parses an import at position `i`; the caller has seen `@import` there.
pub fn import_match_at(v: &Vec<char>, i: usize) -> (r: Option<(usize, Vec<char>, Vec<char>)>)
    requires
        i + 7 <= v@.len(),
    ensures
        (r is Some) == (spec_import_match_at(v@, i as int) is Some),
        r matches Some(p) ==> Some((p.0 as int, p.1@, p.2@)) == spec_import_match_at(v@, i as int)
            && i < p.0 <= v@.len(),
{
    let n = v.len();
    proof {
        assert(i + 7 <= n);
    }
    if i + 7 >= n || !crate::strutil::is_ws(v[i + 7]) {
        return None;
    }
    let j0 = skip_ws_from(v, i + 7);
    let urlpat = chars_of("url(");
    proof {
        reveal_strlit("url(");
    }
    let j = if match_at(v, &urlpat, j0) {
        skip_ws_from(v, j0 + 4)
    } else {
        j0
    };
    let (after, raw) = match import_target(v, j) {
        Some(p) => p,
        None => {
            return None;
        },
    };
    let a1 = skip_ws_from(v, after);
    let a2 = if a1 < v.len() && v[a1] == ')' {
        a1 + 1
    } else {
        a1
    };
    let a3 = skip_ws_from(v, a2);
    let m = find_char_from(v, ';', a3);
    proof {
        lemma_find_char_at(v@.subrange(a3 as int, v@.len() as int), ';', m - a3);
    }
    if m < v.len() {
        let media_body = subvec(v, a3, m);
        Some((m + 1, raw, trim_vec(&media_body)))
    } else {
        None
    }
}

/// The first `@import` match at or after `from`.
pub open spec fn spec_find_import(s: Seq<char>, from: int) -> Option<
    (int, int, Seq<char>, Seq<char>),
>
    decreases s.len() - from,
{
    if from < 0 || from + 7 > s.len() {
        None
    } else if sub_at(s, "@import"@, from) && spec_import_match_at(s, from) is Some {
        let m = spec_import_match_at(s, from)->Some_0;
        Some((from, m.0, m.1, m.2))
    } else {
        spec_find_import(s, from + 1)
    }
}

/// Scans for the first `@import` directive at or after `from`.
pub fn find_import_ref(v: &Vec<char>, from: usize) -> (r: Option<ImportRef>)
    requires
        from <= v@.len(),
    ensures
        (r is Some) == (spec_find_import(v@, from as int) is Some),
        r matches Some(u) ==> Some((u.start as int, u.end as int, u.raw@, u.media@))
            == spec_find_import(v@, from as int) && from <= u.start && u.start < u.end <= v@.len(),
{
    let pat = chars_of("@import");
    proof {
        reveal_strlit("@import");
    }
    let mut i: usize = from;
    loop
        invariant_except_break
            from <= i,
            i <= v@.len() + 1,
            pat@ == "@import"@,
            pat@.len() == 7,
            spec_find_import(v@, from as int) == spec_find_import(v@, i as int),
        ensures
            spec_find_import(v@, from as int) is None,
        decreases v@.len() + 1 - i,
    {
        if i >= v.len() || v.len() - i < 7 {
            proof {
                assert(spec_find_import(v@, i as int) is None);
            }
            break ;
        }
        if match_at(v, &pat, i) {
            if let Some(m) = import_match_at(v, i) {
                proof {
                    assert(spec_find_import(v@, i as int) == Some(
                        (i as int, m.0 as int, m.1@, m.2@),
                    ));
                }
                return Some(
                    ImportRef {
                        start: i,
                        end: m.0,
                        raw: string_from_chars(&m.1),
                        media: string_from_chars(&m.2),
                    },
                );
            }
        }
        proof {
            assert(spec_find_import(v@, i as int) == spec_find_import(v@, i + 1));
        }
        i = i + 1;
    }
    None
}

} // verus!
