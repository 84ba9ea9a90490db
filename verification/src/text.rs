//! A model of UTF-8 byte offsets over the character sequence of a string.
//!
//! Strings are viewed as `Seq<char>`; a byte offset into a string is the sum
//! of the UTF-8 lengths of the characters before it.
use vstd::prelude::*;
use vstd::utf8::*;

verus! {

/// The texts of a sequence of strings.
pub open spec fn strings_view(v: Seq<String>) -> Seq<Seq<char>> {
    v.map_values(|s: String| s@)
}

/// Number of bytes the UTF-8 encoding of `c` takes.
pub open spec fn char_len(c: char) -> nat {
    if (c as u32) < 0x80 {
        1
    } else if (c as u32) < 0x800 {
        2
    } else if (c as u32) < 0x10000 {
        3
    } else {
        4
    }
}

/// Number of bytes of the UTF-8 encoding of `s`.
pub open spec fn byte_len(s: Seq<char>) -> nat
    decreases s.len(),
{
    if s.len() == 0 {
        0
    } else {
        char_len(s[0]) + byte_len(s.drop_first())
    }
}

/// Byte offset of the character at index `i` of `s` (for `i == s.len()`, the length in bytes).
pub open spec fn byte_pos(s: Seq<char>, i: int) -> nat
    decreases s.len(),
{
    if i <= 0 || s.len() == 0 {
        0
    } else {
        char_len(s[0]) + byte_pos(s.drop_first(), i - 1)
    }
}

/// `b` is the byte offset of some character of `s`, or its byte length.
pub open spec fn is_boundary(s: Seq<char>, b: int) -> bool {
    exists|k: int| 0 <= k <= s.len() && byte_pos(s, k) == b
}

/// The character index whose byte offset is `b` (meaningful when `is_boundary(s, b)`).
pub open spec fn char_index_of(s: Seq<char>, b: int) -> int {
    choose|k: int| 0 <= k <= s.len() && byte_pos(s, k) == b
}

/// Number of characters of `s` that start strictly before byte offset `b`.
pub open spec fn chars_before(s: Seq<char>, b: int) -> nat
    decreases s.len(),
{
    if s.len() == 0 || b <= 0 {
        0
    } else {
        1 + chars_before(s.drop_first(), b - char_len(s[0]))
    }
}

pub proof fn lemma_byte_pos_step(s: Seq<char>, i: int)
    requires
        0 <= i < s.len(),
    ensures
        byte_pos(s, i + 1) == byte_pos(s, i) + char_len(s[i]),
    decreases s.len(),
{
    if i > 0 {
        assert(s.drop_first()[i - 1] == s[i]);
        lemma_byte_pos_step(s.drop_first(), i - 1);
    } else {
        assert(byte_pos(s.drop_first(), 0) == 0);
    }
}

pub proof fn lemma_byte_pos_end(s: Seq<char>)
    ensures
        byte_pos(s, s.len() as int) == byte_len(s),
    decreases s.len(),
{
    if s.len() > 0 {
        lemma_byte_pos_end(s.drop_first());
    }
}

pub proof fn lemma_byte_pos_past_end(s: Seq<char>, i: int)
    requires
        i >= s.len(),
    ensures
        byte_pos(s, i) == byte_len(s),
    decreases s.len(),
{
    if s.len() > 0 {
        lemma_byte_pos_past_end(s.drop_first(), i - 1);
    }
}

/// Byte offsets strictly increase with the character index.
pub proof fn lemma_byte_pos_strict(s: Seq<char>, i: int, j: int)
    requires
        0 <= i < j <= s.len(),
    ensures
        byte_pos(s, i) < byte_pos(s, j),
    decreases s.len(),
{
    if i > 0 {
        lemma_byte_pos_strict(s.drop_first(), i - 1, j - 1);
    }
}

pub proof fn lemma_byte_pos_mono(s: Seq<char>, i: int, j: int)
    requires
        i <= j,
    ensures
        byte_pos(s, i) <= byte_pos(s, j),
    decreases s.len(),
{
    if i > 0 && s.len() > 0 {
        lemma_byte_pos_mono(s.drop_first(), i - 1, j - 1);
    }
}

pub proof fn lemma_byte_pos_le_len(s: Seq<char>, i: int)
    ensures
        byte_pos(s, i) <= byte_len(s),
{
    if i <= s.len() {
        lemma_byte_pos_mono(s, i, s.len() as int);
        lemma_byte_pos_end(s);
    } else {
        lemma_byte_pos_past_end(s, i);
    }
}

/// The character index of a boundary is unique.
pub proof fn lemma_char_index_of(s: Seq<char>, k: int)
    requires
        0 <= k <= s.len(),
    ensures
        is_boundary(s, byte_pos(s, k) as int),
        char_index_of(s, byte_pos(s, k) as int) == k,
{
    let b = byte_pos(s, k) as int;
    assert(0 <= k <= s.len() && byte_pos(s, k) == b);
    let j = char_index_of(s, b);
    if j < k {
        lemma_byte_pos_strict(s, j, k);
    } else if k < j {
        lemma_byte_pos_strict(s, k, j);
    }
}

/// Byte offsets in `a + b` past `a` are offsets in `b` shifted by the length of `a`.
pub proof fn lemma_byte_pos_concat(a: Seq<char>, b: Seq<char>, i: int)
    requires
        a.len() <= i,
    ensures
        byte_pos(a + b, i) == byte_len(a) + byte_pos(b, i - a.len()),
    decreases a.len(),
{
    if a.len() > 0 {
        assert((a + b).drop_first() =~= a.drop_first() + b);
        lemma_byte_pos_concat(a.drop_first(), b, i - 1);
    } else {
        assert(a + b =~= b);
    }
}

/// Byte offsets in `a + b` within `a` are offsets in `a`.
pub proof fn lemma_byte_pos_concat_prefix(a: Seq<char>, b: Seq<char>, i: int)
    requires
        i <= a.len(),
    ensures
        byte_pos(a + b, i) == byte_pos(a, i),
    decreases a.len(),
{
    if a.len() > 0 && i > 0 {
        assert((a + b).drop_first() =~= a.drop_first() + b);
        lemma_byte_pos_concat_prefix(a.drop_first(), b, i - 1);
    }
}

/// Offsets taken in a prefix of `s` are offsets in `s`.
pub proof fn lemma_byte_pos_take(s: Seq<char>, n: int, i: int)
    requires
        0 <= i <= n <= s.len(),
    ensures
        byte_pos(s.take(n), i) == byte_pos(s, i),
{
    assert(s =~= s.take(n) + s.skip(n));
    lemma_byte_pos_concat_prefix(s.take(n), s.skip(n), i);
}

/// Counting the characters before a boundary gives its index.
pub proof fn lemma_chars_before_boundary(s: Seq<char>, k: int)
    requires
        0 <= k <= s.len(),
    ensures
        chars_before(s, byte_pos(s, k) as int) == k,
    decreases s.len(),
{
    if k > 0 {
        lemma_chars_before_boundary(s.drop_first(), k - 1);
    }
}

/// The characters starting before `b` form a prefix whose next character starts at or after `b`.
pub proof fn lemma_chars_before_bounds(s: Seq<char>, b: int)
    ensures
        chars_before(s, b) <= s.len(),
        chars_before(s, b) > 0 ==> byte_pos(s, chars_before(s, b) - 1) < b,
        chars_before(s, b) < s.len() ==> b <= byte_pos(s, chars_before(s, b) as int),
    decreases s.len(),
{
    if s.len() > 0 && b > 0 {
        let r = s.drop_first();
        lemma_chars_before_bounds(r, b - char_len(s[0]));
    }
}

/// Every character takes at least one byte.
pub proof fn lemma_len_le_byte_len(s: Seq<char>)
    ensures
        s.len() <= byte_len(s),
    decreases s.len(),
{
    if s.len() > 0 {
        lemma_len_le_byte_len(s.drop_first());
    }
}

/// UTF-8 length of one scalar agrees with `char_len`.
pub proof fn lemma_encode_scalar_len(c: char)
    ensures
        encode_scalar(c as u32).len() == char_len(c),
{
    broadcast use char_is_scalar;

    assert(is_scalar(c as u32));
}

/// The byte length of a string is the UTF-8 length of its characters.
pub proof fn lemma_encode_len(s: Seq<char>)
    ensures
        encode_utf8(s).len() == byte_len(s),
    decreases s.len(),
{
    if s.len() > 0 {
        lemma_encode_scalar_len(s[0]);
        lemma_encode_len(s.drop_first());
    }
}

/// The length of `s` in bytes.
pub fn str_byte_len(s: &str) -> (n: usize)
    ensures
        n == byte_len(s@),
        n == s.len(),
{
    let b = s.as_bytes();
    proof {
        lemma_encode_len(s@);
    }
    b.len()
}

/// The UTF-8 length of `c`.
pub fn char_byte_len(c: char) -> (n: usize)
    ensures
        n == char_len(c),
{
    let u = c as u32;
    if u < 0x80 {
        1
    } else if u < 0x800 {
        2
    } else if u < 0x10000 {
        3
    } else {
        4
    }
}

/// The characters of `s`, in order.
pub fn collect_chars(s: &str) -> (v: Vec<char>)
    ensures
        v@ == s@,
{
    let mut v: Vec<char> = Vec::new();
    for c in it: s.chars()
        invariant
            v@ == it.seq().take(it.index() as int),
    {
        v.push(c);
    }
    v
}

/// Builds a `String` from characters (std's `FromIterator<char>` for `String`);
/// the contract claims the string holds exactly those characters, in order.
#[verifier::external_body]
pub(crate) fn string_from_chars(chars: &Vec<char>) -> (s: String)
    ensures
        s@ == chars@,
{
    chars.iter().collect()
}

/// The string `s` without its characters at indices `a..b`.
pub fn remove_chars(s: &String, a: usize, b: usize) -> (r: String)
    requires
        a <= b <= s@.len(),
    ensures
        r@ == s@.take(a as int) + s@.skip(b as int),
{
    let chars = collect_chars(s.as_str());
    let mut out: Vec<char> = Vec::new();
    let mut i: usize = 0;
    while i < a
        invariant
            i <= a <= b <= chars.len(),
            chars@ == s@,
            out@ == chars@.take(i as int),
        decreases a - i,
    {
        out.push(chars[i]);
        i = i + 1;
    }
    let mut j: usize = b;
    while j < chars.len()
        invariant
            a <= b <= j <= chars.len(),
            chars@ == s@,
            out@ == chars@.take(a as int) + chars@.subrange(b as int, j as int),
        decreases chars.len() - j,
    {
        out.push(chars[j]);
        j = j + 1;
    }
    assert(chars@.subrange(b as int, chars.len() as int) =~= chars@.skip(b as int));
    string_from_chars(&out)
}

/// The string `s` with `c` inserted before its character index `k`.
pub fn insert_char(s: &String, k: usize, c: char) -> (r: String)
    requires
        k <= s@.len(),
    ensures
        r@ == s@.take(k as int) + seq![c] + s@.skip(k as int),
{
    let chars = collect_chars(s.as_str());
    let mut out: Vec<char> = Vec::new();
    let mut i: usize = 0;
    while i < k
        invariant
            i <= k <= chars.len(),
            chars@ == s@,
            out@ == chars@.take(i as int),
        decreases k - i,
    {
        out.push(chars[i]);
        i = i + 1;
    }
    out.push(c);
    let mut j: usize = k;
    while j < chars.len()
        invariant
            k <= j <= chars.len(),
            chars@ == s@,
            out@ == chars@.take(k as int) + seq![c] + chars@.subrange(k as int, j as int),
        decreases chars.len() - j,
    {
        out.push(chars[j]);
        j = j + 1;
    }
    assert(chars@.subrange(k as int, chars.len() as int) =~= chars@.skip(k as int));
    string_from_chars(&out)
}

} // verus!
