//! Character-sequence operations on strings: trimming, prefixes and
//! suffixes, substring search, joining, and decimal formatting.
use vstd::prelude::*;
use crate::cursor::{
    char_is_whitespace, is_white_space, lemma_run_end_bounds, lemma_run_start_bounds, run_end,
    run_start,
};
use crate::text::{collect_chars, string_from_chars};

verus! {

// ---------- specifications ----------

pub open spec fn ws_pred() -> spec_fn(char) -> bool {
    |c: char| is_white_space(c)
}

/// `s` without leading and trailing white space.
pub open spec fn trim(s: Seq<char>) -> Seq<char> {
    let a = run_end(s, 0, ws_pred());
    let b = run_start(s, s.len() as int, ws_pred());
    if a >= b {
        Seq::empty()
    } else {
        s.subrange(a, b)
    }
}

/// `s` without leading white space.
pub open spec fn trim_start(s: Seq<char>) -> Seq<char> {
    s.skip(run_end(s, 0, ws_pred()))
}

/// `s` without trailing white space.
pub open spec fn trim_end(s: Seq<char>) -> Seq<char> {
    s.take(run_start(s, s.len() as int, ws_pred()))
}

pub open spec fn starts_with(s: Seq<char>, p: Seq<char>) -> bool {
    p.len() <= s.len() && s.take(p.len() as int) == p
}

pub open spec fn ends_with(s: Seq<char>, p: Seq<char>) -> bool {
    p.len() <= s.len() && s.skip(s.len() - p.len()) == p
}

/// `s` with every leading repetition of the non-empty `p` removed.
pub open spec fn strip_prefixes(s: Seq<char>, p: Seq<char>) -> Seq<char>
    decreases s.len(),
{
    if p.len() > 0 && starts_with(s, p) {
        strip_prefixes(s.skip(p.len() as int), p)
    } else {
        s
    }
}

/// `s` with every trailing repetition of the non-empty `p` removed.
pub open spec fn strip_suffixes(s: Seq<char>, p: Seq<char>) -> Seq<char>
    decreases s.len(),
{
    if p.len() > 0 && ends_with(s, p) {
        strip_suffixes(s.take(s.len() - p.len()), p)
    } else {
        s
    }
}

/// `needle` occurs in `hay` starting at index `i`.
pub open spec fn occurs_at(hay: Seq<char>, needle: Seq<char>, i: int) -> bool {
    0 <= i && i + needle.len() <= hay.len() && hay.subrange(i, i + needle.len()) == needle
}

pub open spec fn contains(hay: Seq<char>, needle: Seq<char>) -> bool {
    exists|i: int| occurs_at(hay, needle, i)
}

/// The pieces joined with `sep` between consecutive ones.
pub open spec fn join(pieces: Seq<Seq<char>>, sep: Seq<char>) -> Seq<char>
    decreases pieces.len(),
{
    if pieces.len() == 0 {
        Seq::empty()
    } else if pieces.len() == 1 {
        pieces[0]
    } else {
        join(pieces.drop_last(), sep) + sep + pieces.last()
    }
}

/// Decimal digits of `n`, without leading zeros ("0" for zero).
pub open spec fn decimal(n: nat) -> Seq<char>
    decreases n,
{
    if n < 10 {
        seq![digit_char(n)]
    } else {
        decimal(n / 10).push(digit_char(n % 10))
    }
}

pub open spec fn digit_char(d: nat) -> char {
    if d == 0 {
        '0'
    } else if d == 1 {
        '1'
    } else if d == 2 {
        '2'
    } else if d == 3 {
        '3'
    } else if d == 4 {
        '4'
    } else if d == 5 {
        '5'
    } else if d == 6 {
        '6'
    } else if d == 7 {
        '7'
    } else if d == 8 {
        '8'
    } else {
        '9'
    }
}

/// Unicode lower-case mapping of `s`, as `str::to_lowercase` computes it.
pub uninterp spec fn lowercase(s: Seq<char>) -> Seq<char>;

/// Calls `str::to_lowercase`; its result is named `lowercase(s@)`.
#[verifier::external_body]
pub(crate) fn to_lowercase(s: &str) -> (r: String)
    ensures
        r@ == lowercase(s@),
{
    s.to_lowercase()
}

// ---------- lemmas ----------

// ---------- executable ----------

/// Whether the characters of `a` and `b` are equal.
pub fn chars_eq(a: &Vec<char>, b: &Vec<char>) -> (r: bool)
    ensures
        r == (a@ == b@),
{
    if a.len() != b.len() {
        return false;
    }
    let mut i: usize = 0;
    while i < a.len()
        invariant
            a.len() == b.len(),
            i <= a.len(),
            forall|j: int| 0 <= j < i ==> a@[j] == b@[j],
        decreases a.len() - i,
    {
        if a[i] != b[i] {
            return false;
        }
        i = i + 1;
    }
    assert(a@ =~= b@);
    true
}

/// Whether `a` and `b` hold the same characters.
pub fn str_eq(a: &str, b: &str) -> (r: bool)
    ensures
        r == (a@ == b@),
{
    let x = collect_chars(a);
    let y = collect_chars(b);
    chars_eq(&x, &y)
}

/// Whether `needle` occurs in `hay` at index `i`.
pub fn occurs_at_exec(hay: &Vec<char>, needle: &Vec<char>, i: usize) -> (r: bool)
    ensures
        r == occurs_at(hay@, needle@, i as int),
{
    if i > hay.len() || needle.len() > hay.len() - i {
        return false;
    }
    let mut j: usize = 0;
    while j < needle.len()
        invariant
            i + needle.len() <= hay.len(),
            j <= needle.len(),
            forall|t: int| 0 <= t < j ==> hay@[i + t] == needle@[t],
        decreases needle.len() - j,
    {
        if hay[i + j] != needle[j] {
            assert(hay@.subrange(i as int, i + needle.len())[j as int] != needle@[j as int]);
            return false;
        }
        j = j + 1;
    }
    assert(hay@.subrange(i as int, i + needle.len()) =~= needle@);
    true
}

/// Whether `needle` occurs in `hay`.
pub fn contains_chars(hay: &Vec<char>, needle: &Vec<char>) -> (r: bool)
    ensures
        r == contains(hay@, needle@),
{
    if needle.len() > hay.len() {
        return false;
    }
    let last = hay.len() - needle.len();
    let mut i: usize = 0;
    loop
        invariant_except_break
            i <= last,
            forall|t: int| 0 <= t < i ==> !occurs_at(hay@, needle@, t),
        invariant
            last == hay.len() - needle.len(),
        ensures
            forall|t: int| 0 <= t <= last ==> !occurs_at(hay@, needle@, t),
        decreases last - i,
    {
        if occurs_at_exec(hay, needle, i) {
            return true;
        }
        if i == last {
            break;
        }
        i = i + 1;
    }
    false
}

/// Whether `needle` occurs in `hay`.
pub fn str_contains(hay: &str, needle: &str) -> (r: bool)
    ensures
        r == contains(hay@, needle@),
{
    let h = collect_chars(hay);
    let n = collect_chars(needle);
    contains_chars(&h, &n)
}

/// Whether `s` starts with `p`.
pub fn chars_start_with(s: &Vec<char>, p: &Vec<char>) -> (r: bool)
    ensures
        r == starts_with(s@, p@),
{
    if p.len() > s.len() {
        return false;
    }
    let r = occurs_at_exec(s, p, 0);
    assert(s@.subrange(0, p@.len() as int) =~= s@.take(p@.len() as int));
    r
}

/// Whether `s` ends with `p`.
pub fn chars_end_with(s: &Vec<char>, p: &Vec<char>) -> (r: bool)
    ensures
        r == ends_with(s@, p@),
{
    if p.len() > s.len() {
        return false;
    }
    let r = occurs_at_exec(s, p, s.len() - p.len());
    assert(s@.subrange(s@.len() - p@.len(), s@.len() as int) =~= s@.skip(s@.len() - p@.len()));
    r
}

/// Characters `a..b` of `v`.
pub fn slice_chars(v: &Vec<char>, a: usize, b: usize) -> (r: Vec<char>)
    requires
        a <= b <= v.len(),
    ensures
        r@ == v@.subrange(a as int, b as int),
{
    let mut out: Vec<char> = Vec::new();
    let mut i = a;
    while i < b
        invariant
            a <= i <= b <= v.len(),
            out@ == v@.subrange(a as int, i as int),
        decreases b - i,
    {
        out.push(v[i]);
        i = i + 1;
    }
    out
}

/// Index of the first character that is not white space (or the length).
pub fn skip_ws_forward(v: &Vec<char>, k: usize) -> (j: usize)
    requires
        k <= v.len(),
    ensures
        j == run_end(v@, k as int, ws_pred()),
{
    let mut i = k;
    while i < v.len() && char_is_whitespace(v[i])
        invariant
            k <= i <= v.len(),
            run_end(v@, i as int, ws_pred()) == run_end(v@, k as int, ws_pred()),
        decreases v.len() - i,
    {
        i = i + 1;
    }
    i
}

/// Index just past the last character, before `k`, that is not white space (or 0).
pub fn skip_ws_backward(v: &Vec<char>, k: usize) -> (j: usize)
    requires
        k <= v.len(),
    ensures
        j == run_start(v@, k as int, ws_pred()),
{
    let mut i = k;
    while i > 0 && char_is_whitespace(v[i - 1])
        invariant
            i <= k <= v.len(),
            run_start(v@, i as int, ws_pred()) == run_start(v@, k as int, ws_pred()),
        decreases i,
    {
        i = i - 1;
    }
    i
}

/// `v` without leading and trailing white space.
pub fn trim_chars(v: &Vec<char>) -> (r: Vec<char>)
    ensures
        r@ == trim(v@),
{
    let a = skip_ws_forward(v, 0);
    let b = skip_ws_backward(v, v.len());
    if a >= b {
        Vec::new()
    } else {
        proof {
            lemma_run_start_bounds(v@, v@.len() as int, ws_pred());
        }
        slice_chars(v, a, b)
    }
}

/// `v` without leading white space.
pub fn trim_start_chars(v: &Vec<char>) -> (r: Vec<char>)
    ensures
        r@ == trim_start(v@),
{
    let a = skip_ws_forward(v, 0);
    proof {
        lemma_run_end_bounds(v@, 0, ws_pred());
    }
    let r = slice_chars(v, a, v.len());
    assert(r@ =~= v@.skip(a as int));
    r
}

/// `s` without leading and trailing white space.
pub fn trim_str(s: &str) -> (r: String)
    ensures
        r@ == trim(s@),
{
    let v = collect_chars(s);
    let t = trim_chars(&v);
    string_from_chars(&t)
}

/// `v` with every leading repetition of `p` removed.
pub fn strip_prefixes_chars(v: &Vec<char>, p: &Vec<char>) -> (r: Vec<char>)
    ensures
        r@ == strip_prefixes(v@, p@),
{
    if p.len() == 0 {
        return v.clone();
    }
    let mut a: usize = 0;
    assert(v@.skip(0) =~= v@);
    while p.len() <= v.len() - a && occurs_at_exec(v, p, a)
        invariant
            a <= v.len(),
            p.len() > 0,
            strip_prefixes(v@.skip(a as int), p@) == strip_prefixes(v@, p@),
        decreases v.len() - a,
    {
        proof {
            let rest = v@.skip(a as int);
            assert(rest.take(p@.len() as int) =~= v@.subrange(a as int, a + p@.len()));
            assert(rest.skip(p@.len() as int) =~= v@.skip(a + p@.len()));
        }
        a = a + p.len();
    }
    proof {
        let rest = v@.skip(a as int);
        if starts_with(rest, p@) {
            assert(rest.take(p@.len() as int) =~= v@.subrange(a as int, a + p@.len()));
        }
    }
    let r = slice_chars(v, a, v.len());
    assert(r@ =~= v@.skip(a as int));
    r
}

/// `v` with every trailing repetition of `p` removed.
pub fn strip_suffixes_chars(v: &Vec<char>, p: &Vec<char>) -> (r: Vec<char>)
    ensures
        r@ == strip_suffixes(v@, p@),
{
    if p.len() == 0 {
        return v.clone();
    }
    let mut b: usize = v.len();
    assert(v@.take(v@.len() as int) =~= v@);
    while b >= p.len() && occurs_at_exec(v, p, b - p.len())
        invariant
            b <= v.len(),
            p.len() > 0,
            strip_suffixes(v@.take(b as int), p@) == strip_suffixes(v@, p@),
        decreases b,
    {
        proof {
            let pre = v@.take(b as int);
            assert(pre.skip(pre.len() - p@.len()) =~= v@.subrange(b - p@.len(), b as int));
            assert(pre.take(pre.len() - p@.len()) =~= v@.take(b - p@.len()));
        }
        b = b - p.len();
    }
    proof {
        let pre = v@.take(b as int);
        assert(pre =~= v@.take(b as int));
        if ends_with(pre, p@) {
            assert(pre.skip(pre.len() - p@.len()) =~= v@.subrange(b - p@.len(), b as int));
        }
        assert(v@.take(b as int) =~= v@.subrange(0, b as int));
    }
    slice_chars(v, 0, b)
}

/// Appends all of `src` to `dst`.
pub fn push_all(dst: &mut Vec<char>, src: &Vec<char>)
    ensures
        final(dst)@ == old(dst)@ + src@,
{
    let mut i: usize = 0;
    while i < src.len()
        invariant
            i <= src.len(),
            dst@ == old(dst)@ + src@.take(i as int),
        decreases src.len() - i,
    {
        dst.push(src[i]);
        i = i + 1;
        assert(src@.take(i as int) =~= src@.take(i - 1).push(src@[i - 1]));
    }
    assert(src@.take(src@.len() as int) =~= src@);
}

/// The strings joined with `sep` between consecutive ones.
pub fn join_strings(pieces: &Vec<String>, sep: &str) -> (r: String)
    ensures
        r@ == join(pieces@.map_values(|s: String| s@), sep@),
{
    let ghost views = pieces@.map_values(|s: String| s@);
    let sepv = collect_chars(sep);
    let mut out: Vec<char> = Vec::new();
    let mut i: usize = 0;
    while i < pieces.len()
        invariant
            i <= pieces.len(),
            views == pieces@.map_values(|s: String| s@),
            sepv@ == sep@,
            out@ == join(views.take(i as int), sep@),
        decreases pieces.len() - i,
    {
        let piece = collect_chars(pieces[i].as_str());
        if i > 0 {
            push_all(&mut out, &sepv);
        }
        push_all(&mut out, &piece);
        proof {
            let t = views.take(i + 1);
            assert(t.drop_last() =~= views.take(i as int));
            assert(t.last() == pieces@[i as int]@);
            if i == 0 {
                assert(out@ =~= t[0]);
            }
        }
        i = i + 1;
    }
    assert(views.take(pieces.len() as int) =~= views);
    string_from_chars(&out)
}

/// The character sequences joined with `sep` between consecutive ones.
pub fn join_char_vecs(pieces: &Vec<Vec<char>>, sep: &Vec<char>) -> (r: Vec<char>)
    ensures
        r@ == join(pieces@.map_values(|p: Vec<char>| p@), sep@),
{
    let ghost views = pieces@.map_values(|p: Vec<char>| p@);
    let mut out: Vec<char> = Vec::new();
    let mut i: usize = 0;
    while i < pieces.len()
        invariant
            i <= pieces.len(),
            views == pieces@.map_values(|p: Vec<char>| p@),
            out@ == join(views.take(i as int), sep@),
        decreases pieces.len() - i,
    {
        if i > 0 {
            push_all(&mut out, sep);
        }
        push_all(&mut out, &pieces[i]);
        proof {
            let t = views.take(i + 1);
            assert(t.drop_last() =~= views.take(i as int));
            assert(t.last() == pieces@[i as int]@);
            if i == 0 {
                assert(out@ =~= t[0]);
            }
        }
        i = i + 1;
    }
    assert(views.take(pieces.len() as int) =~= views);
    out
}

/// Decimal representation of `n`.
pub fn decimal_string(n: usize) -> (r: String)
    ensures
        r@ == decimal(n as nat),
{
    let v = decimal_chars(n);
    string_from_chars(&v)
}

/// Decimal digits of `n`.
pub fn decimal_chars(n: usize) -> (r: Vec<char>)
    ensures
        r@ == decimal(n as nat),
    decreases n,
{
    if n < 10 {
        let mut v = Vec::new();
        v.push(digit(n));
        v
    } else {
        let mut v = decimal_chars(n / 10);
        v.push(digit(n % 10));
        v
    }
}

fn digit(d: usize) -> (c: char)
    requires
        d < 10,
    ensures
        c == digit_char(d as nat),
{
    if d == 0 {
        '0'
    } else if d == 1 {
        '1'
    } else if d == 2 {
        '2'
    } else if d == 3 {
        '3'
    } else if d == 4 {
        '4'
    } else if d == 5 {
        '5'
    } else if d == 6 {
        '6'
    } else if d == 7 {
        '7'
    } else if d == 8 {
        '8'
    } else {
        '9'
    }
}

// ---------- replacing ----------

/// `s[i..]` with every occurrence of the non-empty `p`, scanning from the
/// left without overlaps, replaced by `w` (as `str::replace` does).
pub open spec fn replace_from(s: Seq<char>, p: Seq<char>, w: Seq<char>, i: int) -> Seq<char>
    decreases s.len() - i,
{
    if i < 0 || p.len() == 0 || i + p.len() > s.len() {
        if 0 <= i <= s.len() {
            s.skip(i)
        } else {
            Seq::empty()
        }
    } else if occurs_at(s, p, i) {
        w + replace_from(s, p, w, i + p.len())
    } else {
        seq![s[i]] + replace_from(s, p, w, i + 1)
    }
}

pub open spec fn replace_all(s: Seq<char>, p: Seq<char>, w: Seq<char>) -> Seq<char> {
    replace_from(s, p, w, 0)
}

/// `s[i..]` with its first occurrence of the non-empty `p` replaced by `w`
/// (as `str::replacen` with a count of one does).
pub open spec fn replace_first_from(s: Seq<char>, p: Seq<char>, w: Seq<char>, i: int) -> Seq<char>
    decreases s.len() - i,
{
    if i < 0 || p.len() == 0 || i + p.len() > s.len() {
        if 0 <= i <= s.len() {
            s.skip(i)
        } else {
            Seq::empty()
        }
    } else if occurs_at(s, p, i) {
        w + s.skip(i + p.len())
    } else {
        seq![s[i]] + replace_first_from(s, p, w, i + 1)
    }
}

pub open spec fn replace_first(s: Seq<char>, p: Seq<char>, w: Seq<char>) -> Seq<char> {
    replace_first_from(s, p, w, 0)
}

/// `s` with every occurrence of `p` replaced by `w`.
pub fn replace_all_str(s: &str, p: &str, w: &str) -> (r: String)
    ensures
        r@ == replace_all(s@, p@, w@),
{
    let v = collect_chars(s);
    let pv = collect_chars(p);
    let wv = collect_chars(w);
    let mut out: Vec<char> = Vec::new();
    let mut i: usize = 0;
    while i < v.len()
        invariant
            i <= v@.len(),
            v@ == s@,
            pv@ == p@,
            wv@ == w@,
            out@ + replace_from(v@, pv@, wv@, i as int) == replace_from(v@, pv@, wv@, 0),
        decreases v.len() - i,
    {
        if pv.len() == 0 || pv.len() > v.len() - i {
            let rest = slice_chars(&v, i, v.len());
            push_all(&mut out, &rest);
            proof {
                assert(out@ + replace_from(v@, pv@, wv@, v@.len() as int) =~= out@);
            }
            i = v.len();
        } else if occurs_at_exec(&v, &pv, i) {
            let ghost ob = out@;
            push_all(&mut out, &wv);
            assert(ob + replace_from(v@, pv@, wv@, i as int) =~= out@ + replace_from(
                v@,
                pv@,
                wv@,
                i + pv@.len(),
            ));
            i = i + pv.len();
        } else {
            let ghost ob = out@;
            out.push(v[i]);
            assert(ob + replace_from(v@, pv@, wv@, i as int) =~= out@ + replace_from(
                v@,
                pv@,
                wv@,
                i + 1,
            ));
            i = i + 1;
        }
    }
    assert(out@ + replace_from(v@, pv@, wv@, i as int) =~= out@);
    string_from_chars(&out)
}

/// `s` with its first occurrence of `p` replaced by `w`.
pub fn replace_first_str(s: &str, p: &str, w: &str) -> (r: String)
    ensures
        r@ == replace_first(s@, p@, w@),
{
    let v = collect_chars(s);
    let pv = collect_chars(p);
    let wv = collect_chars(w);
    let mut out: Vec<char> = Vec::new();
    let mut i: usize = 0;
    while i < v.len()
        invariant
            i <= v@.len(),
            v@ == s@,
            pv@ == p@,
            wv@ == w@,
            out@ + replace_first_from(v@, pv@, wv@, i as int) == replace_first_from(v@, pv@, wv@, 0),
        decreases v.len() - i,
    {
        if pv.len() == 0 || pv.len() > v.len() - i {
            let rest = slice_chars(&v, i, v.len());
            push_all(&mut out, &rest);
            proof {
                assert(out@ + replace_first_from(v@, pv@, wv@, v@.len() as int) =~= out@);
            }
            i = v.len();
        } else if occurs_at_exec(&v, &pv, i) {
            let ghost ob = out@;
            push_all(&mut out, &wv);
            let rest = slice_chars(&v, i + pv.len(), v.len());
            push_all(&mut out, &rest);
            proof {
                assert(ob + replace_first_from(v@, pv@, wv@, i as int) =~= out@);
                assert(out@ + replace_first_from(v@, pv@, wv@, v@.len() as int) =~= out@);
            }
            i = v.len();
        } else {
            let ghost ob = out@;
            out.push(v[i]);
            assert(ob + replace_first_from(v@, pv@, wv@, i as int) =~= out@ + replace_first_from(
                v@,
                pv@,
                wv@,
                i + 1,
            ));
            i = i + 1;
        }
    }
    assert(out@ + replace_first_from(v@, pv@, wv@, i as int) =~= out@);
    string_from_chars(&out)
}

// ---------- prefixes by count ----------

/// The first `n` characters of `s` (all of them when it is shorter).
pub open spec fn take_at_most(s: Seq<char>, n: nat) -> Seq<char> {
    if s.len() <= n {
        s
    } else {
        s.take(n as int)
    }
}

/// The first `n` characters of `s` (all of them when it is shorter).
pub fn take_chars(s: &str, n: usize) -> (r: String)
    ensures
        r@ == take_at_most(s@, n as nat),
{
    let v = collect_chars(s);
    let end = if v.len() <= n {
        v.len()
    } else {
        n
    };
    let t = slice_chars(&v, 0, end);
    proof {
        if v@.len() <= n {
            assert(t@ =~= v@);
        } else {
            assert(t@ =~= v@.take(n as int));
        }
    }
    string_from_chars(&t)
}

} // verus!
