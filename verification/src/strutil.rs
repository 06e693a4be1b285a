//! Character-level string utilities shared by the URL, CSS and HTML logic.
//!
//! Text is processed as `Vec<char>`, whose view is the same `Seq<char>` as the
//! view of the `String` it came from, so every contract in the crate can speak
//! about one kind of sequence.

use vstd::prelude::*;
use vstd::std_specs::iter::IteratorSpec;

verus! {

broadcast use vstd::string::group_string_axioms;

/// The pattern `p` occurs in `s` starting at index `i`.
pub open spec fn sub_at(s: Seq<char>, p: Seq<char>, i: int) -> bool {
    0 <= i && i + p.len() <= s.len() && s.subrange(i, i + p.len() as int) == p
}

/// The pattern `p` occurs somewhere in `s`.
pub open spec fn contains_seq(s: Seq<char>, p: Seq<char>) -> bool {
    exists|i: int| sub_at(s, p, i)
}

/// `p` is a prefix of `s`.
pub open spec fn has_prefix(s: Seq<char>, p: Seq<char>) -> bool {
    p.len() <= s.len() && s.subrange(0, p.len() as int) == p
}

/// `p` is a suffix of `s`.
pub open spec fn has_suffix(s: Seq<char>, p: Seq<char>) -> bool {
    p.len() <= s.len() && s.subrange(s.len() - p.len(), s.len() as int) == p
}

/// Collects the characters of a string slice into a vector.
pub fn chars_of(s: &str) -> (r: Vec<char>)
    ensures
        r@ == s@,
{
    let mut r: Vec<char> = Vec::new();
    let mut it = s.chars();
    loop
        invariant
            it.obeys_prophetic_iter_laws(),
            it.decrease() is Some,
            r@ + it.remaining() == s@,
        ensures
            r@ == s@,
        decreases it.decrease().unwrap(),
    {
        match it.next() {
            Some(c) => {
                r.push(c);
            },
            None => {
                proof {
                    assert(r@ =~= s@);
                }
                break ;
            },
        }
    }
    r
}

/// Relies on `String::push` from std: appends one character.
#[verifier::external_body]
pub(crate) fn push_char(s: &mut String, c: char)
    ensures
        final(s)@ == old(s)@.push(c),
{
    s.push(c)
}

/// Builds a `String` whose view is exactly the given character sequence.
pub fn string_from_chars(v: &Vec<char>) -> (r: String)
    ensures
        r@ == v@,
{
    let mut r = String::new();
    let mut i: usize = 0;
    while i < v.len()
        invariant
            i <= v.len(),
            r@ == v@.subrange(0, i as int),
        decreases v.len() - i,
    {
        push_char(&mut r, v[i]);
        proof {
            assert(r@ =~= v@.subrange(0, i + 1 as int));
        }
        i = i + 1;
    }
    proof {
        assert(r@ =~= v@);
    }
    r
}

/// True when `pat` occurs in `v` starting at `i`.
pub fn match_at(v: &Vec<char>, pat: &Vec<char>, i: usize) -> (b: bool)
    ensures
        b == sub_at(v@, pat@, i as int),
{
    if i > v.len() || pat.len() > v.len() - i {
        proof {
            assert(!sub_at(v@, pat@, i as int));
        }
        return false;
    }
    let mut j: usize = 0;
    while j < pat.len()
        invariant
            j <= pat.len(),
            i + pat.len() <= v.len(),
            forall|k: int| 0 <= k < j ==> v@[i + k] == pat@[k],
        decreases pat.len() - j,
    {
        if v[i + j] != pat[j] {
            proof {
                assert(v@.subrange(i as int, i + pat@.len() as int)[j as int] != pat@[j as int]);
            }
            return false;
        }
        j = j + 1;
    }
    proof {
        assert(v@.subrange(i as int, i + pat@.len() as int) =~= pat@);
    }
    true
}

/// True when `pat` occurs anywhere in `v`.
pub fn contains_pat(v: &Vec<char>, pat: &Vec<char>) -> (b: bool)
    ensures
        b == contains_seq(v@, pat@),
{
    if pat.len() > v.len() {
        return false;
    }
    if pat.len() == 0 {
        proof {
            assert(sub_at(v@, pat@, 0)) by {
                assert(v@.subrange(0, 0) =~= pat@);
            }
        }
        return true;
    }
    let last = v.len() - pat.len();
    let mut i: usize = 0;
    while i <= last
        invariant
            1 <= pat.len() <= v.len(),
            last == v.len() - pat.len(),
            i <= last + 1,
            forall|k: int| 0 <= k < i ==> !sub_at(v@, pat@, k),
        decreases last + 1 - i,
    {
        if match_at(v, pat, i) {
            return true;
        }
        i = i + 1;
    }
    proof {
        assert(forall|k: int| sub_at(v@, pat@, k) ==> 0 <= k < i);
    }
    false
}

/// ASCII whitespace, the class used for trimming and token splitting.
pub open spec fn is_ws_char(c: char) -> bool {
    c == ' ' || c == '\t' || c == '\n' || c == '\r' || c == '\u{0c}'
}

/// Tests for ASCII whitespace.
pub fn is_ws(c: char) -> (b: bool)
    ensures
        b == is_ws_char(c),
{
    c == ' ' || c == '\t' || c == '\n' || c == '\r' || c == '\u{0c}'
}

/// ASCII lowercasing of one character.
pub open spec fn lc(c: char) -> char {
    if 'A' <= c && c <= 'Z' {
        ((c as u32) + 32) as char
    } else {
        c
    }
}

/// ASCII lowercasing of a sequence.
pub open spec fn lower(s: Seq<char>) -> Seq<char> {
    s.map_values(|c: char| lc(c))
}

/// Lowercases one ASCII letter, leaving every other character unchanged.
pub fn lower_char(c: char) -> (r: char)
    ensures
        r == lc(c),
{
    if 'A' <= c && c <= 'Z' {
        (((c as u8) + 32) as char)
    } else {
        c
    }
}

/// Lowercases a character vector (ASCII letters only).
pub fn to_lower_vec(v: &Vec<char>) -> (r: Vec<char>)
    ensures
        r@ == lower(v@),
{
    let mut r: Vec<char> = Vec::new();
    let mut i: usize = 0;
    while i < v.len()
        invariant
            i <= v.len(),
            r@ == lower(v@.subrange(0, i as int)),
        decreases v.len() - i,
    {
        r.push(lower_char(v[i]));
        proof {
            assert(r@ =~= lower(v@.subrange(0, i + 1 as int)));
        }
        i = i + 1;
    }
    proof {
        assert(v@.subrange(0, v@.len() as int) =~= v@);
    }
    r
}

/// The sequence with leading and trailing ASCII whitespace removed.
pub open spec fn spec_trim(s: Seq<char>) -> Seq<char>
    decreases s.len(),
{
    if s.len() == 0 {
        s
    } else if is_ws_char(s[0]) {
        spec_trim(s.drop_first())
    } else if is_ws_char(s.last()) {
        spec_trim(s.drop_last())
    } else {
        s
    }
}

/// A non-empty trimmed sequence has no whitespace at either edge.
pub proof fn lemma_trim_edges(s: Seq<char>)
    ensures
        spec_trim(s).len() > 0 ==> !is_ws_char(spec_trim(s)[0]) && !is_ws_char(spec_trim(s).last()),
    decreases s.len(),
{
    if s.len() == 0 {
    } else if is_ws_char(s[0]) {
        lemma_trim_edges(s.drop_first());
    } else if is_ws_char(s.last()) {
        lemma_trim_edges(s.drop_last());
    }
}

/// True when `pat` ends `v`.
pub fn ends_with_pat(v: &Vec<char>, pat: &Vec<char>) -> (b: bool)
    ensures
        b == has_suffix(v@, pat@),
{
    if pat.len() > v.len() {
        return false;
    }
    let r = match_at(v, pat, v.len() - pat.len());
    proof {
        assert(sub_at(v@, pat@, v@.len() - pat@.len()) == has_suffix(v@, pat@));
    }
    r
}

pub proof fn lemma_trim_idempotent(s: Seq<char>)
    ensures
        spec_trim(spec_trim(s)) == spec_trim(s),
    decreases s.len(),
{
    if s.len() == 0 {
    } else if is_ws_char(s[0]) {
        lemma_trim_idempotent(s.drop_first());
    } else if is_ws_char(s.last()) {
        lemma_trim_idempotent(s.drop_last());
    }
}

proof fn lemma_trim_range(s: Seq<char>, lo: int, hi: int)
    requires
        0 <= lo <= hi <= s.len(),
        forall|k: int| 0 <= k < lo ==> is_ws_char(s[k]),
        forall|k: int| hi <= k < s.len() ==> is_ws_char(s[k]),
        lo < hi ==> !is_ws_char(s[lo]) && !is_ws_char(s[hi - 1]),
    ensures
        spec_trim(s) == s.subrange(lo, hi),
    decreases s.len(),
{
    if s.len() == 0 {
        assert(s.subrange(lo, hi) =~= s);
    } else if is_ws_char(s[0]) {
        if lo == hi {
            lemma_trim_range(s.drop_first(), 0, 0);
            assert(s.drop_first().subrange(0, 0) =~= s.subrange(lo, hi));
        } else {
            lemma_trim_range(s.drop_first(), lo - 1, hi - 1);
            assert(s.drop_first().subrange(lo - 1, hi - 1) =~= s.subrange(lo, hi));
        }
    } else if is_ws_char(s.last()) {
        if lo == hi {
            lemma_trim_range(s.drop_last(), 0, 0);
            assert(s.drop_last().subrange(0, 0) =~= s.subrange(lo, hi));
        } else {
            lemma_trim_range(s.drop_last(), lo, hi);
            assert(s.drop_last().subrange(lo, hi) =~= s.subrange(lo, hi));
        }
    } else {
        assert(!is_ws_char(s[0]));
        assert(lo == 0);
        assert(!is_ws_char(s[s.len() - 1]));
        assert(hi == s.len());
        assert(s.subrange(0, s.len() as int) =~= s);
    }
}

/// Copies `v[from..to]` into a fresh vector.
pub fn subvec(v: &Vec<char>, from: usize, to: usize) -> (r: Vec<char>)
    requires
        from <= to <= v@.len(),
    ensures
        r@ == v@.subrange(from as int, to as int),
{
    let mut r: Vec<char> = Vec::new();
    let mut i: usize = from;
    while i < to
        invariant
            from <= i <= to <= v@.len(),
            r@ == v@.subrange(from as int, i as int),
        decreases to - i,
    {
        r.push(v[i]);
        proof {
            assert(r@ =~= v@.subrange(from as int, i + 1 as int));
        }
        i = i + 1;
    }
    r
}

/// Removes leading and trailing ASCII whitespace.
pub fn trim_vec(v: &Vec<char>) -> (r: Vec<char>)
    ensures
        r@ == spec_trim(v@),
{
    let mut lo: usize = 0;
    while lo < v.len() && is_ws(v[lo])
        invariant
            lo <= v.len(),
            forall|k: int| 0 <= k < lo ==> is_ws_char(v@[k]),
        decreases v.len() - lo,
    {
        lo = lo + 1;
    }
    let mut hi: usize = v.len();
    while hi > lo && is_ws(v[hi - 1])
        invariant
            lo <= hi <= v.len(),
            forall|k: int| 0 <= k < lo ==> is_ws_char(v@[k]),
            forall|k: int| hi <= k < v@.len() ==> is_ws_char(v@[k]),
        decreases hi,
    {
        hi = hi - 1;
    }
    proof {
        lemma_trim_range(v@, lo as int, hi as int);
    }
    subvec(v, lo, hi)
}

/// Compares two character vectors for equality.
pub fn vecs_eq(a: &Vec<char>, b: &Vec<char>) -> (r: bool)
    ensures
        r == (a@ == b@),
{
    if a.len() != b.len() {
        return false;
    }
    let mut i: usize = 0;
    while i < a.len()
        invariant
            a@.len() == b@.len(),
            i <= a@.len(),
            forall|k: int| 0 <= k < i ==> a@[k] == b@[k],
        decreases a.len() - i,
    {
        if a[i] != b[i] {
            return false;
        }
        i = i + 1;
    }
    proof {
        assert(a@ =~= b@);
    }
    true
}

/// A pattern occurrence in a suffix of `s` is an occurrence in `s`, shifted.
pub proof fn lemma_sub_at_shift(s: Seq<char>, pat: Seq<char>, off: int, k: int)
    requires
        0 <= off <= s.len(),
        0 <= k,
    ensures
        sub_at(s.subrange(off, s.len() as int), pat, k) == sub_at(s, pat, k + off),
{
    let rest = s.subrange(off, s.len() as int);
    if 0 <= k && k + pat.len() <= rest.len() {
        assert(rest.subrange(k, k + pat.len() as int) =~= s.subrange(
            k + off,
            k + off + pat.len() as int,
        ));
    }
}

/// Index of the first occurrence of `pat` in `s`; any value past
/// `s.len() - pat.len()` means there is none.
pub open spec fn find_sub(s: Seq<char>, pat: Seq<char>) -> nat
    decreases s.len(),
{
    if sub_at(s, pat, 0) {
        0
    } else if s.len() == 0 {
        0
    } else {
        1 + find_sub(s.drop_first(), pat)
    }
}

pub proof fn lemma_find_sub_at(s: Seq<char>, pat: Seq<char>, i: int)
    requires
        0 <= i <= s.len(),
        forall|k: int| 0 <= k < i ==> !sub_at(s, pat, k),
        i + pat.len() <= s.len() ==> sub_at(s, pat, i),
    ensures
        i + pat.len() <= s.len() ==> find_sub(s, pat) == i,
        i + pat.len() > s.len() ==> find_sub(s, pat) + pat.len() > s.len(),
    decreases i,
{
    if i == 0 {
        if pat.len() > s.len() {
            lemma_find_sub_none(s, pat);
        }
    } else {
        assert(!sub_at(s, pat, 0));
        assert(s.drop_first() =~= s.subrange(1, s.len() as int));
        assert forall|k: int| 0 <= k < i - 1 implies !(#[trigger] sub_at(s.drop_first(), pat, k)) by {
            lemma_sub_at_shift(s, pat, 1, k);
        }
        if i + pat.len() <= s.len() {
            lemma_sub_at_shift(s, pat, 1, i - 1);
        }
        lemma_find_sub_at(s.drop_first(), pat, i - 1);
    }
}

pub proof fn lemma_find_sub_none(s: Seq<char>, pat: Seq<char>)
    requires
        forall|k: int| 0 <= k <= s.len() - pat.len() ==> !sub_at(s, pat, k),
    ensures
        find_sub(s, pat) + pat.len() > s.len(),
    decreases s.len(),
{
    if s.len() == 0 {
        if pat.len() == 0 {
            assert(s.subrange(0, 0) =~= pat);
            assert(sub_at(s, pat, 0));
        }
    } else if !sub_at(s, pat, 0) {
        assert(s.drop_first() =~= s.subrange(1, s.len() as int));
        assert forall|k: int|
            0 <= k <= s.drop_first().len() - pat.len() implies !(#[trigger] sub_at(
            s.drop_first(),
            pat,
            k,
        )) by {
            lemma_sub_at_shift(s, pat, 1, k);
        }
        lemma_find_sub_none(s.drop_first(), pat);
    } else {
        assert(pat.len() <= s.len());
        assert(!sub_at(s, pat, 0));
    }
}

/// Scans forward from `from` for the first occurrence of `pat`; the result
/// is `None` when no occurrence starts at or after `from`.
pub fn find_sub_from(v: &Vec<char>, pat: &Vec<char>, from: usize) -> (r: Option<usize>)
    requires
        from <= v@.len(),
        pat@.len() >= 1,
    ensures
        r matches Some(i) ==> from <= i && i + pat@.len() <= v@.len() && sub_at(v@, pat@, i as int)
            && forall|k: int| from <= k < i ==> !sub_at(v@, pat@, k),
        r is None ==> forall|k: int| from <= k ==> !sub_at(v@, pat@, k),
{
    let mut i: usize = from;
    while i < v.len()
        invariant
            from <= i <= v@.len(),
            forall|k: int| from <= k < i ==> !sub_at(v@, pat@, k),
        decreases v.len() - i,
    {
        if match_at(v, pat, i) {
            return Some(i);
        }
        i = i + 1;
    }
    proof {
        assert forall|k: int| from <= k implies !(#[trigger] sub_at(v@, pat@, k)) by {
            if k >= i {
                assert(k + pat@.len() > v@.len());
            }
        }
    }
    None
}

/// All occurrences of a non-empty `pat` replaced by `sub`, left to right and
/// without revisiting replacements, as `str::replace` does.
pub open spec fn spec_replace(s: Seq<char>, pat: Seq<char>, sub: Seq<char>) -> Seq<char>
    decreases s.len(),
{
    if pat.len() == 0 {
        s
    } else {
        let i = find_sub(s, pat) as int;
        if i + pat.len() <= s.len() {
            s.subrange(0, i) + sub + spec_replace(
                s.subrange(i + pat.len() as int, s.len() as int),
                pat,
                sub,
            )
        } else {
            s
        }
    }
}

/// Replaces every occurrence of a non-empty pattern.
pub fn replace_all(v: &Vec<char>, pat: &Vec<char>, sub: &Vec<char>) -> (r: Vec<char>)
    requires
        pat@.len() >= 1,
    ensures
        r@ == spec_replace(v@, pat@, sub@),
{
    let mut out: Vec<char> = Vec::new();
    let mut pos: usize = 0;
    proof {
        assert(v@.subrange(0, v@.len() as int) =~= v@);
    }
    loop
        invariant_except_break
            pat@.len() >= 1,
            pos <= v@.len(),
            out@ + spec_replace(v@.subrange(pos as int, v@.len() as int), pat@, sub@)
                =~= spec_replace(v@, pat@, sub@),
        ensures
            out@ == spec_replace(v@, pat@, sub@),
        decreases v@.len() - pos,
    {
        let ghost rest = v@.subrange(pos as int, v@.len() as int);
        match find_sub_from(v, pat, pos) {
            Some(i) => {
                proof {
                    assert forall|k: int| 0 <= k < i - pos implies !(#[trigger] sub_at(
                        rest,
                        pat@,
                        k,
                    )) by {
                        lemma_sub_at_shift(v@, pat@, pos as int, k);
                    }
                    lemma_sub_at_shift(v@, pat@, pos as int, i - pos);
                    lemma_find_sub_at(rest, pat@, i - pos);
                }
                let ghost out0 = out@;
                let mut seg = subvec(v, pos, i);
                out.append(&mut seg);
                let mut sub2 = subvec(sub, 0, sub.len());
                out.append(&mut sub2);
                proof {
                    assert(sub@.subrange(0, sub@.len() as int) =~= sub@);
                    assert(out@ =~= out0 + rest.subrange(0, i - pos) + sub@);
                    assert(rest.subrange(i - pos + pat@.len() as int, rest.len() as int)
                        =~= v@.subrange(i + pat@.len() as int, v@.len() as int));
                    assert(spec_replace(rest, pat@, sub@) == rest.subrange(0, i - pos) + sub@
                        + spec_replace(
                        rest.subrange(i - pos + pat@.len() as int, rest.len() as int),
                        pat@,
                        sub@,
                    ));
                }
                let vlen = v.len();
                proof {
                    assert(i + pat@.len() <= vlen);
                }
                pos = i + pat.len();
            },
            None => {
                proof {
                    assert forall|k: int| 0 <= k <= rest.len() - pat@.len() implies !(
                    #[trigger] sub_at(rest, pat@, k)) by {
                        lemma_sub_at_shift(v@, pat@, pos as int, k);
                    }
                    lemma_find_sub_none(rest, pat@);
                }
                let mut seg = subvec(v, pos, v.len());
                let ghost out0 = out@;
                out.append(&mut seg);
                proof {
                    assert(spec_replace(rest, pat@, sub@) == rest);
                    assert(out@ =~= out0 + rest);
                }
                break ;
            },
        }
    }
    out
}

/// ASCII decimal digit.
pub open spec fn is_digit(c: char) -> bool {
    '0' <= c && c <= '9'
}

/// Numeric value of a decimal digit character.
pub open spec fn digit_val(c: char) -> int {
    (c as u32) - ('0' as u32)
}

/// Every character of `s` is a decimal digit.
pub open spec fn all_digits(s: Seq<char>) -> bool {
    forall|i: int| 0 <= i < s.len() ==> is_digit(s[i])
}

/// Value of a digit string read in base ten.
pub open spec fn digits_val(s: Seq<char>) -> int
    decreases s.len(),
{
    if s.len() == 0 {
        0
    } else {
        digits_val(s.drop_last()) * 10 + digit_val(s.last())
    }
}

pub proof fn lemma_digits_val_nonneg(s: Seq<char>)
    requires
        all_digits(s),
    ensures
        digits_val(s) >= 0,
    decreases s.len(),
{
    if s.len() > 0 {
        assert(all_digits(s.drop_last()));
        lemma_digits_val_nonneg(s.drop_last());
    }
}

proof fn lemma_digits_val_mono(s: Seq<char>, i: int)
    requires
        all_digits(s),
        0 <= i <= s.len(),
    ensures
        digits_val(s) >= digits_val(s.subrange(0, i)),
    decreases s.len() - i,
{
    if i == s.len() {
        assert(s.subrange(0, i) =~= s);
    } else {
        lemma_digits_val_mono(s, i + 1);
        let t = s.subrange(0, i + 1);
        assert(all_digits(t));
        assert(t.drop_last() =~= s.subrange(0, i));
        lemma_digits_val_nonneg(t.drop_last());
        assert(digits_val(t) == digits_val(s.subrange(0, i)) * 10 + digit_val(s[i]));
        assert(digits_val(s.subrange(0, i)) * 10 >= digits_val(s.subrange(0, i))) by (nonlinear_arith)
            requires
                digits_val(s.subrange(0, i)) >= 0,
        ;
    }
}

/// The value `str::parse::<u64>` would produce: an optional leading `+`,
/// then one or more decimal digits, rejected on overflow.
pub open spec fn spec_parse_u64(s: Seq<char>) -> Option<u64> {
    let body = if s.len() > 0 && s[0] == '+' {
        s.drop_first()
    } else {
        s
    };
    if body.len() > 0 && all_digits(body) && digits_val(body) <= u64::MAX {
        Some(digits_val(body) as u64)
    } else {
        None
    }
}

/// Parses an unsigned decimal integer as `str::parse::<u64>` does.
pub fn parse_u64(v: &Vec<char>) -> (r: Option<u64>)
    ensures
        r == spec_parse_u64(v@),
{
    let start: usize = if v.len() > 0 && v[0] == '+' {
        1
    } else {
        0
    };
    let ghost body = if v@.len() > 0 && v@[0] == '+' {
        v@.drop_first()
    } else {
        v@
    };
    proof {
        assert(body =~= v@.subrange(start as int, v@.len() as int));
    }
    if v.len() == start {
        return None;
    }
    let mut acc: u64 = 0;
    let mut i: usize = start;
    while i < v.len()
        invariant
            start <= i <= v@.len(),
            start == (if v@.len() > 0 && v@[0] == '+' {
                1int
            } else {
                0int
            }),
            body == (if v@.len() > 0 && v@[0] == '+' {
                v@.drop_first()
            } else {
                v@
            }),
            body == v@.subrange(start as int, v@.len() as int),
            body.len() > 0,
            all_digits(body.subrange(0, i - start)),
            acc == digits_val(body.subrange(0, i - start)),
        decreases v.len() - i,
    {
        let c = v[i];
        if !('0' <= c && c <= '9') {
            proof {
                assert(body[i - start] == c);
            }
            return None;
        }
        let d: u64 = ((c as u32) - ('0' as u32)) as u64;
        proof {
            assert(body.subrange(0, i + 1 - start).drop_last() =~= body.subrange(0, i - start));
            assert(body.subrange(0, i + 1 - start).last() == c);
        }
        if acc > (u64::MAX - d) / 10 {
            proof {
                let t = body.subrange(0, i + 1 - start);
                assert(all_digits(t));
                assert(digits_val(t) == acc * 10 + d);
                assert(acc * 10 + d > u64::MAX) by (nonlinear_arith)
                    requires
                        acc > (u64::MAX - d) / 10,
                        0 <= d <= 9,
                ;
                if all_digits(body) {
                    lemma_digits_val_mono(body, i + 1 - start);
                }
            }
            return None;
        }
        proof {
            assert(acc * 10 + d <= u64::MAX) by (nonlinear_arith)
                requires
                    acc <= (u64::MAX - d) / 10,
                    0 <= d <= 9,
            ;
        }
        acc = acc * 10 + d;
        i = i + 1;
    }
    proof {
        assert(body.subrange(0, v@.len() - start) =~= body);
    }
    Some(acc)
}

/// The character standing for the decimal digit `d`.
pub open spec fn digit_char(d: int) -> char {
    if d == 0 {
        '0'
    } else if d == 1 {
        '1'
    } else if d == 2 {
        '2'
    } else if d == 3 {
        '3'
    } else if d == 4 {
        '4'
    } else if d == 5 {
        '5'
    } else if d == 6 {
        '6'
    } else if d == 7 {
        '7'
    } else if d == 8 {
        '8'
    } else {
        '9'
    }
}

/// Decimal representation of a non-negative integer, no sign, no leading zero.
pub open spec fn spec_dec_digits(n: int) -> Seq<char>
    decreases n,
{
    if n < 10 {
        seq![digit_char(n)]
    } else {
        spec_dec_digits(n / 10).push(digit_char(n % 10))
    }
}

fn digit_char_exec(d: u64) -> (r: char)
    requires
        d <= 9,
    ensures
        r == digit_char(d as int),
{
    match d {
        0 => '0',
        1 => '1',
        2 => '2',
        3 => '3',
        4 => '4',
        5 => '5',
        6 => '6',
        7 => '7',
        8 => '8',
        _ => '9',
    }
}

/// Writes `n` in decimal.
pub fn u64_to_dec(n: u64) -> (r: String)
    ensures
        r@ == spec_dec_digits(n as int),
{
    let mut digits: Vec<char> = Vec::new();
    let mut m: u64 = n;
    loop
        invariant_except_break
            digits@.len() > 0 ==> m > 0,
            spec_dec_digits(n as int) == (if digits@.len() == 0 {
                spec_dec_digits(m as int)
            } else {
                spec_dec_digits(m as int) + digits@
            }),
        ensures
            digits@ == spec_dec_digits(n as int),
        decreases m,
    {
        let ghost digits0 = digits@;
        let ghost m0 = m as int;
        let d = m % 10;
        let next = m / 10;
        digits.insert(0, digit_char_exec(d));
        proof {
            assert(digits@ =~= seq![digit_char(d as int)] + digits0);
            if next == 0 {
                assert(spec_dec_digits(m0) == seq![digit_char(d as int)]);
                if digits0.len() == 0 {
                    assert(digits@ =~= spec_dec_digits(n as int));
                } else {
                    assert(digits@ =~= spec_dec_digits(m0) + digits0);
                }
            } else {
                assert(spec_dec_digits(m0) == spec_dec_digits(next as int).push(
                    digit_char(d as int),
                ));
                if digits0.len() == 0 {
                    assert(spec_dec_digits(next as int) + digits@ =~= spec_dec_digits(n as int));
                } else {
                    assert(spec_dec_digits(next as int) + digits@ =~= spec_dec_digits(m0)
                        + digits0);
                }
            }
        }
        m = next;
        if m == 0 {
            break ;
        }
    }
    string_from_chars(&digits)
}

/// Index of the first occurrence of `c` in `s`, or `s.len()` if absent.
pub open spec fn find_char(s: Seq<char>, c: char) -> nat
    decreases s.len(),
{
    if s.len() == 0 {
        0
    } else if s[0] == c {
        0
    } else {
        1 + find_char(s.drop_first(), c)
    }
}

pub proof fn lemma_find_char_at(s: Seq<char>, c: char, i: int)
    requires
        0 <= i <= s.len(),
        forall|k: int| 0 <= k < i ==> s[k] != c,
        i < s.len() ==> s[i] == c,
    ensures
        find_char(s, c) == i,
    decreases i,
{
    if i == 0 {
        if s.len() > 0 && s[0] != c {
            assert(false);
        }
    } else {
        lemma_find_char_at(s.drop_first(), c, i - 1);
    }
}

/// Split of `s` on the separator `c`, as `str::split` does: `n` separators
/// yield `n + 1` parts, and an empty input yields one empty part.
pub open spec fn spec_split(s: Seq<char>, c: char) -> Seq<Seq<char>>
    decreases s.len(),
{
    let i = find_char(s, c) as int;
    if i >= s.len() {
        seq![s]
    } else {
        seq![s.subrange(0, i)] + spec_split(s.subrange(i + 1, s.len() as int), c)
    }
}

/// Scans forward from `from` for the character `c`.
pub fn find_char_from(v: &Vec<char>, c: char, from: usize) -> (r: usize)
    requires
        from <= v@.len(),
    ensures
        from <= r <= v@.len(),
        forall|k: int| from <= k < r ==> v@[k] != c,
        r < v@.len() ==> v@[r as int] == c,
{
    let mut i: usize = from;
    while i < v.len()
        invariant
            from <= i <= v@.len(),
            forall|k: int| from <= k < i ==> v@[k] != c,
        decreases v.len() - i,
    {
        if v[i] == c {
            return i;
        }
        i = i + 1;
    }
    i
}

/// Splits `v` on the separator character, as `str::split` does.
pub fn split_on(v: &Vec<char>, c: char) -> (r: Vec<Vec<char>>)
    ensures
        r.deep_view() == spec_split(v@, c),
{
    let mut r: Vec<Vec<char>> = Vec::new();
    let mut seg_start: usize = 0;
    proof {
        assert(v@.subrange(0, v@.len() as int) =~= v@);
    }
    loop
        invariant_except_break
            seg_start <= v@.len(),
            r.deep_view() + spec_split(v@.subrange(seg_start as int, v@.len() as int), c)
                =~= spec_split(v@, c),
        ensures
            r.deep_view() == spec_split(v@, c),
        decreases v@.len() - seg_start, 1int,
    {
        let ghost rest = v@.subrange(seg_start as int, v@.len() as int);
        let i = find_char_from(v, c, seg_start);
        proof {
            lemma_find_char_at(rest, c, i - seg_start);
        }
        let seg = subvec(v, seg_start, i);
        let ghost r0 = r.deep_view();
        r.push(seg);
        proof {
            assert(r.deep_view() =~~= r0 + seq![seg@]);
        }
        if i == v.len() {
            proof {
                assert(spec_split(rest, c) == seq![rest]);
                assert(seg@ =~= rest);
                assert(r.deep_view() =~= spec_split(v@, c));
            }
            break ;
        }
        proof {
            assert(spec_split(rest, c) == seq![rest.subrange(0, i - seg_start)] + spec_split(
                rest.subrange(i - seg_start + 1, rest.len() as int),
                c,
            ));
            assert(seg@ =~= rest.subrange(0, i - seg_start));
            assert(rest.subrange(i - seg_start + 1, rest.len() as int) =~= v@.subrange(
                i + 1,
                v@.len() as int,
            ));
            assert(r.deep_view() + spec_split(v@.subrange(i + 1, v@.len() as int), c)
                =~= r0 + spec_split(rest, c));
        }
        seg_start = i + 1;
    }
    r
}

/// Index just past the last occurrence of `c` in `s`, or 0 if there is none.
pub open spec fn after_last_char(s: Seq<char>, c: char) -> int
    decreases s.len(),
{
    if s.len() == 0 {
        0
    } else if s.last() == c {
        s.len() as int
    } else {
        after_last_char(s.drop_last(), c)
    }
}

pub proof fn lemma_after_last_char_at(s: Seq<char>, c: char, i: int)
    requires
        0 <= i <= s.len(),
        forall|k: int| i <= k < s.len() ==> s[k] != c,
        i > 0 ==> s[i - 1] == c,
    ensures
        after_last_char(s, c) == i,
    decreases s.len(),
{
    if s.len() == 0 {
    } else if s.last() == c {
        assert(i == s.len());
    } else {
        lemma_after_last_char_at(s.drop_last(), c, i);
    }
}

/// Scans backward for the position just past the last occurrence of `c`.
pub fn find_after_last(v: &Vec<char>, c: char) -> (r: usize)
    ensures
        r == after_last_char(v@, c),
        r <= v@.len(),
{
    let mut i: usize = v.len();
    while i > 0
        invariant
            i <= v@.len(),
            forall|k: int| i <= k < v@.len() ==> v@[k] != c,
        decreases i,
    {
        if v[i - 1] == c {
            proof {
                lemma_after_last_char_at(v@, c, i as int);
            }
            return i;
        }
        i = i - 1;
    }
    proof {
        lemma_after_last_char_at(v@, c, 0);
    }
    0
}

/// Index of the first character that is not ASCII whitespace, or `s.len()`.
pub open spec fn find_non_ws(s: Seq<char>) -> nat
    decreases s.len(),
{
    if s.len() == 0 {
        0
    } else if !is_ws_char(s[0]) {
        0
    } else {
        1 + find_non_ws(s.drop_first())
    }
}

pub proof fn lemma_find_non_ws_at(s: Seq<char>, i: int)
    requires
        0 <= i <= s.len(),
        forall|k: int| 0 <= k < i ==> is_ws_char(s[k]),
        i < s.len() ==> !is_ws_char(s[i]),
    ensures
        find_non_ws(s) == i,
    decreases i,
{
    if i == 0 {
        if s.len() > 0 && is_ws_char(s[0]) {
            assert(false);
        }
    } else {
        lemma_find_non_ws_at(s.drop_first(), i - 1);
    }
}

/// Scans forward from `from` past ASCII whitespace.
pub fn skip_ws_from(v: &Vec<char>, from: usize) -> (r: usize)
    requires
        from <= v@.len(),
    ensures
        from <= r <= v@.len(),
        r - from == find_non_ws(v@.subrange(from as int, v@.len() as int)),
        forall|k: int| from <= k < r ==> is_ws_char(v@[k]),
        r < v@.len() ==> !is_ws_char(v@[r as int]),
{
    let mut i: usize = from;
    while i < v.len() && is_ws(v[i])
        invariant
            from <= i <= v@.len(),
            forall|k: int| from <= k < i ==> is_ws_char(v@[k]),
        decreases v.len() - i,
    {
        i = i + 1;
    }
    proof {
        lemma_find_non_ws_at(v@.subrange(from as int, v@.len() as int), i - from);
    }
    i
}

/// The sequence with every leading and trailing `c` removed.
pub open spec fn spec_strip_char(s: Seq<char>, c: char) -> Seq<char>
    decreases s.len(),
{
    if s.len() == 0 {
        s
    } else if s[0] == c {
        spec_strip_char(s.drop_first(), c)
    } else if s.last() == c {
        spec_strip_char(s.drop_last(), c)
    } else {
        s
    }
}

proof fn lemma_strip_char_range(s: Seq<char>, c: char, lo: int, hi: int)
    requires
        0 <= lo <= hi <= s.len(),
        forall|k: int| 0 <= k < lo ==> s[k] == c,
        forall|k: int| hi <= k < s.len() ==> s[k] == c,
        lo < hi ==> s[lo] != c && s[hi - 1] != c,
    ensures
        spec_strip_char(s, c) == s.subrange(lo, hi),
    decreases s.len(),
{
    if s.len() == 0 {
        assert(s.subrange(lo, hi) =~= s);
    } else if s[0] == c {
        if lo == hi {
            lemma_strip_char_range(s.drop_first(), c, 0, 0);
            assert(s.drop_first().subrange(0, 0) =~= s.subrange(lo, hi));
        } else {
            lemma_strip_char_range(s.drop_first(), c, lo - 1, hi - 1);
            assert(s.drop_first().subrange(lo - 1, hi - 1) =~= s.subrange(lo, hi));
        }
    } else if s.last() == c {
        if lo == hi {
            lemma_strip_char_range(s.drop_last(), c, 0, 0);
            assert(s.drop_last().subrange(0, 0) =~= s.subrange(lo, hi));
        } else {
            lemma_strip_char_range(s.drop_last(), c, lo, hi);
            assert(s.drop_last().subrange(lo, hi) =~= s.subrange(lo, hi));
        }
    } else {
        assert(lo == 0);
        assert(hi == s.len());
        assert(s.subrange(0, s.len() as int) =~= s);
    }
}

/// Strips every leading and trailing occurrence of one character, as
/// `str::trim_matches` does.
pub fn strip_char_vec(v: &Vec<char>, c: char) -> (r: Vec<char>)
    ensures
        r@ == spec_strip_char(v@, c),
{
    let mut lo: usize = 0;
    while lo < v.len() && v[lo] == c
        invariant
            lo <= v.len(),
            forall|k: int| 0 <= k < lo ==> v@[k] == c,
        decreases v.len() - lo,
    {
        lo = lo + 1;
    }
    let mut hi: usize = v.len();
    while hi > lo && v[hi - 1] == c
        invariant
            lo <= hi <= v.len(),
            forall|k: int| 0 <= k < lo ==> v@[k] == c,
            forall|k: int| hi <= k < v@.len() ==> v@[k] == c,
        decreases hi,
    {
        hi = hi - 1;
    }
    proof {
        lemma_strip_char_range(v@, c, lo as int, hi as int);
    }
    subvec(v, lo, hi)
}

/// Index of the first ASCII-whitespace character, or `s.len()` if none.
pub open spec fn find_ws(s: Seq<char>) -> nat
    decreases s.len(),
{
    if s.len() == 0 {
        0
    } else if is_ws_char(s[0]) {
        0
    } else {
        1 + find_ws(s.drop_first())
    }
}

pub proof fn lemma_find_ws_at(s: Seq<char>, i: int)
    requires
        0 <= i <= s.len(),
        forall|k: int| 0 <= k < i ==> !is_ws_char(s[k]),
        i < s.len() ==> is_ws_char(s[i]),
    ensures
        find_ws(s) == i,
    decreases i,
{
    if i == 0 {
        if s.len() > 0 && !is_ws_char(s[0]) {
            assert(false);
        }
    } else {
        lemma_find_ws_at(s.drop_first(), i - 1);
    }
}

/// The maximal ASCII-whitespace-separated tokens of `s`, in order, none
/// empty: what `str::split_whitespace` yields on ASCII input.
pub open spec fn spec_ws_tokens(s: Seq<char>) -> Seq<Seq<char>>
    decreases s.len(),
{
    if s.len() == 0 {
        Seq::empty()
    } else if is_ws_char(s[0]) {
        spec_ws_tokens(s.drop_first())
    } else {
        let i = find_ws(s) as int;
        if i >= s.len() {
            seq![s]
        } else {
            seq![s.subrange(0, i)] + spec_ws_tokens(s.subrange(i, s.len() as int))
        }
    }
}

proof fn lemma_ws_tokens_skip(s: Seq<char>, i: int)
    requires
        0 <= i <= s.len(),
        forall|k: int| 0 <= k < i ==> is_ws_char(s[k]),
    ensures
        spec_ws_tokens(s) == spec_ws_tokens(s.subrange(i, s.len() as int)),
    decreases i,
{
    if i == 0 {
        assert(s.subrange(0, s.len() as int) =~= s);
    } else {
        assert(s.drop_first() =~= s.subrange(1, s.len() as int));
        lemma_ws_tokens_skip(s.drop_first(), i - 1);
        assert(s.drop_first().subrange(i - 1, s.drop_first().len() as int) =~= s.subrange(
            i,
            s.len() as int,
        ));
    }
}

/// Splits into whitespace-separated tokens.
pub fn ws_tokens(v: &Vec<char>) -> (r: Vec<Vec<char>>)
    ensures
        r.deep_view() == spec_ws_tokens(v@),
{
    let mut r: Vec<Vec<char>> = Vec::new();
    let mut pos: usize = 0;
    proof {
        assert(v@.subrange(0, v@.len() as int) =~= v@);
    }
    loop
        invariant_except_break
            pos <= v@.len(),
            r.deep_view() + spec_ws_tokens(v@.subrange(pos as int, v@.len() as int))
                =~= spec_ws_tokens(v@),
        ensures
            r.deep_view() == spec_ws_tokens(v@),
        decreases v@.len() - pos,
    {
        // Skip a whitespace run.
        let ghost rest0 = v@.subrange(pos as int, v@.len() as int);
        let mut start: usize = pos;
        while start < v.len() && is_ws(v[start])
            invariant
                pos <= start <= v@.len(),
                forall|k: int| pos <= k < start ==> is_ws_char(v@[k]),
            decreases v.len() - start,
        {
            start = start + 1;
        }
        proof {
            lemma_ws_tokens_skip(rest0, start - pos);
            assert(rest0.subrange(start - pos, rest0.len() as int) =~= v@.subrange(
                start as int,
                v@.len() as int,
            ));
        }
        if start == v.len() {
            proof {
                assert(spec_ws_tokens(v@.subrange(start as int, v@.len() as int))
                    =~= Seq::<Seq<char>>::empty());
                assert(r.deep_view() =~= spec_ws_tokens(v@));
            }
            break ;
        }
        // Take the token up to the next whitespace.
        let ghost rest = v@.subrange(start as int, v@.len() as int);
        let mut i: usize = start;
        while i < v.len() && !is_ws(v[i])
            invariant
                start <= i <= v@.len(),
                forall|k: int| start <= k < i ==> !is_ws_char(v@[k]),
            decreases v.len() - i,
        {
            i = i + 1;
        }
        proof {
            lemma_find_ws_at(rest, i - start);
            assert(!is_ws_char(rest[0]));
        }
        let tok = subvec(v, start, i);
        let ghost r0 = r.deep_view();
        r.push(tok);
        proof {
            assert(r.deep_view() =~~= r0 + seq![tok@]);
            if i < v.len() {
                assert(spec_ws_tokens(rest) == seq![rest.subrange(0, i - start)] + spec_ws_tokens(
                    rest.subrange(i - start, rest.len() as int),
                ));
            } else {
                assert(spec_ws_tokens(rest) == seq![rest]);
                assert(rest.subrange(0, i - start) =~= rest);
                assert(spec_ws_tokens(rest.subrange(i - start, rest.len() as int))
                    =~= Seq::<Seq<char>>::empty());
                assert(spec_ws_tokens(rest) =~= seq![rest.subrange(0, i - start)] + spec_ws_tokens(
                    rest.subrange(i - start, rest.len() as int),
                ));
            }
            assert(tok@ =~= rest.subrange(0, i - start));
            assert(rest.subrange(i - start, rest.len() as int) =~= v@.subrange(
                i as int,
                v@.len() as int,
            ));
            assert(r.deep_view() + spec_ws_tokens(v@.subrange(i as int, v@.len() as int))
                =~= r0 + spec_ws_tokens(rest));
        }
        pos = i;
    }
    r
}

} // verus!
