//! Cursor arithmetic on a multi-line input buffer.
//!
//! Cursors are byte offsets into the string, as in the input box; lines are
//! separated by `'\n'` and columns count characters.
use vstd::prelude::*;
use crate::text::{
    byte_len, byte_pos, char_byte_len, char_index_of, chars_before, collect_chars, is_boundary,
    lemma_byte_pos_le_len, lemma_byte_pos_mono, lemma_byte_pos_step, lemma_byte_pos_strict,
    lemma_byte_pos_end, lemma_char_index_of, lemma_chars_before_bounds, lemma_chars_before_boundary, str_byte_len,
};

verus! {

// ---------- character classes ----------

/// Whether `c` has the Unicode `White_Space` property, as `char::is_whitespace` answers.
pub uninterp spec fn is_white_space(c: char) -> bool;

/// Whether `c` is alphabetic or numeric, as `char::is_alphanumeric` answers.
pub uninterp spec fn is_alphanumeric(c: char) -> bool;

/// Calls `char::is_whitespace`; its result is named `is_white_space(c)`.
#[verifier::external_body]
pub(crate) fn char_is_whitespace(c: char) -> (r: bool)
    ensures
        r == is_white_space(c),
{
    c.is_whitespace()
}

/// Calls `char::is_alphanumeric`; its result is named `is_alphanumeric(c)`.
#[verifier::external_body]
pub(crate) fn char_is_alphanumeric(c: char) -> (r: bool)
    ensures
        r == is_alphanumeric(c),
{
    c.is_alphanumeric()
}

/// Word characters: letters, digits and `_`.
pub open spec fn word_char(c: char) -> bool {
    is_alphanumeric(c) || c == '_'
}

/// Punctuation for word motion: neither white space nor a word character.
pub open spec fn punct_char(c: char) -> bool {
    !is_white_space(c) && !word_char(c)
}

// ---------- line structure ----------

/// Index of the last `'\n'` in `s[0..k)`, or -1 when there is none.
pub open spec fn last_newline_before(s: Seq<char>, k: int) -> int
    decreases k,
{
    if k <= 0 || k > s.len() {
        -1
    } else if s[k - 1] == '\n' {
        k - 1
    } else {
        last_newline_before(s, k - 1)
    }
}

/// Index of the first `'\n'` in `s[k..]`, or `s.len()` when there is none.
pub open spec fn next_newline_from(s: Seq<char>, k: int) -> int
    decreases s.len() - k,
{
    if k >= s.len() {
        s.len() as int
    } else if k >= 0 && s[k] == '\n' {
        k
    } else {
        next_newline_from(s, k + 1)
    }
}

/// Number of `'\n'` in `s[0..k)`.
pub open spec fn count_newlines(s: Seq<char>, k: int) -> nat
    decreases k,
{
    if k <= 0 || k > s.len() {
        0
    } else {
        count_newlines(s, k - 1) + if s[k - 1] == '\n' {
            1nat
        } else {
            0nat
        }
    }
}

/// Character index where line `t` starts, or -1 when `s` has fewer than `t` newlines.
pub open spec fn line_start(s: Seq<char>, t: nat) -> int
    decreases t,
{
    if t == 0 {
        0
    } else {
        let p = line_start(s, (t - 1) as nat);
        if p < 0 {
            -1
        } else {
            let q = next_newline_from(s, p);
            if q >= s.len() {
                -1
            } else {
                q + 1
            }
        }
    }
}

/// Number of characters on line `t`, newline excluded (0 for a missing line).
pub open spec fn line_len(s: Seq<char>, t: nat) -> nat {
    let p = line_start(s, t);
    if p < 0 {
        0
    } else {
        (next_newline_from(s, p) - p) as nat
    }
}

// ---------- specifications of the cursor functions ----------

pub open spec fn prev_boundary_spec(s: Seq<char>, cursor: int) -> int {
    let k = char_index_of(s, cursor);
    if k == 0 {
        0
    } else {
        byte_pos(s, k - 1) as int
    }
}

pub open spec fn next_boundary_spec(s: Seq<char>, cursor: int) -> int {
    let k = char_index_of(s, cursor);
    if k < s.len() {
        byte_pos(s, k + 1) as int
    } else {
        cursor
    }
}

pub open spec fn start_of_line_spec(s: Seq<char>, cursor: int) -> int {
    byte_pos(s, last_newline_before(s, char_index_of(s, cursor)) + 1) as int
}

pub open spec fn end_of_line_spec(s: Seq<char>, cursor: int) -> int {
    byte_pos(s, next_newline_from(s, char_index_of(s, cursor))) as int
}

/// (line, column) of the character position `m`.
pub open spec fn line_col_of(s: Seq<char>, m: int) -> (int, int) {
    (count_newlines(s, m) as int, m - 1 - last_newline_before(s, m))
}

pub open spec fn line_col_to_cursor_spec(s: Seq<char>, line: nat, col: nat) -> int {
    let p = line_start(s, line);
    if p < 0 {
        byte_len(s) as int
    } else {
        let l = line_len(s, line);
        byte_pos(s, p + if col < l {
            col as int
        } else {
            l as int
        }) as int
    }
}

/// Smallest `j <= k` such that every character of `s[j..k)` satisfies `p`.
pub open spec fn run_start(s: Seq<char>, k: int, p: spec_fn(char) -> bool) -> int
    decreases k,
{
    if k <= 0 || k > s.len() || !p(s[k - 1]) {
        k
    } else {
        run_start(s, k - 1, p)
    }
}

/// Largest `j >= k` such that every character of `s[k..j)` satisfies `p`.
pub open spec fn run_end(s: Seq<char>, k: int, p: spec_fn(char) -> bool) -> int
    decreases s.len() - k,
{
    if k >= s.len() || k < 0 || !p(s[k]) {
        k
    } else {
        run_end(s, k + 1, p)
    }
}

/// Character index reached by deleting one word backwards from index `k`.
pub open spec fn prev_word_index(s: Seq<char>, k: int) -> int {
    let j = run_start(s, k, |c: char| is_white_space(c));
    if j > 0 && word_char(s[j - 1]) {
        run_start(s, j, |c: char| word_char(c))
    } else if j > 0 {
        run_start(s, j, |c: char| punct_char(c))
    } else {
        j
    }
}

/// Character index reached by deleting one word forwards from index `k`.
pub open spec fn next_word_index(s: Seq<char>, k: int) -> int {
    let j = run_end(s, k, |c: char| is_white_space(c));
    if j < s.len() && word_char(s[j]) {
        run_end(s, j, |c: char| word_char(c))
    } else if j < s.len() {
        run_end(s, j, |c: char| punct_char(c))
    } else {
        j
    }
}

// ---------- lemmas ----------

pub proof fn lemma_next_newline_bounds(s: Seq<char>, k: int)
    requires
        0 <= k <= s.len(),
    ensures
        k <= next_newline_from(s, k) <= s.len(),
        next_newline_from(s, k) < s.len() ==> s[next_newline_from(s, k)] == '\n',
        forall|j: int| k <= j < next_newline_from(s, k) ==> s[j] != '\n',
    decreases s.len() - k,
{
    if k < s.len() && s[k] != '\n' {
        lemma_next_newline_bounds(s, k + 1);
    }
}

pub proof fn lemma_last_newline_bounds(s: Seq<char>, k: int)
    requires
        0 <= k <= s.len(),
    ensures
        -1 <= last_newline_before(s, k) < k,
        last_newline_before(s, k) >= 0 ==> s[last_newline_before(s, k)] == '\n',
        forall|j: int| last_newline_before(s, k) < j < k ==> s[j] != '\n',
    decreases k,
{
    if k > 0 && s[k - 1] != '\n' {
        lemma_last_newline_bounds(s, k - 1);
    }
}

proof fn lemma_line_start_bounds(s: Seq<char>, t: nat)
    ensures
        line_start(s, t) <= s.len(),
        line_start(s, t) >= -1,
        t > 0 && line_start(s, t) >= 0 ==> line_start(s, t) >= 1 && s[line_start(s, t) - 1]
            == '\n',
    decreases t,
{
    if t > 0 {
        lemma_line_start_bounds(s, (t - 1) as nat);
        let p = line_start(s, (t - 1) as nat);
        if p >= 0 {
            lemma_next_newline_bounds(s, p);
        }
    }
}

pub proof fn lemma_run_start_bounds(s: Seq<char>, k: int, p: spec_fn(char) -> bool)
    requires
        0 <= k <= s.len(),
    ensures
        0 <= run_start(s, k, p) <= k,
        forall|j: int| run_start(s, k, p) <= j < k ==> p(s[j]),
        run_start(s, k, p) > 0 ==> !p(s[run_start(s, k, p) - 1]),
    decreases k,
{
    if k > 0 && p(s[k - 1]) {
        lemma_run_start_bounds(s, k - 1, p);
    }
}

pub proof fn lemma_run_end_bounds(s: Seq<char>, k: int, p: spec_fn(char) -> bool)
    requires
        0 <= k <= s.len(),
    ensures
        k <= run_end(s, k, p) <= s.len(),
        forall|j: int| k <= j < run_end(s, k, p) ==> p(s[j]),
        run_end(s, k, p) < s.len() ==> !p(s[run_end(s, k, p)]),
    decreases s.len() - k,
{
    if k < s.len() && p(s[k]) {
        lemma_run_end_bounds(s, k + 1, p);
    }
}

/// The loop exit condition of a forward scan determines `chars_before`.
proof fn lemma_chars_before_exact(s: Seq<char>, b: int, i: int)
    requires
        0 <= i <= s.len(),
        i == 0 || byte_pos(s, i - 1) < b,
        i == s.len() || byte_pos(s, i) >= b,
    ensures
        chars_before(s, b) == i,
{
    lemma_chars_before_bounds(s, b);
    let m = chars_before(s, b) as int;
    if m < i {
        lemma_byte_pos_mono(s, m, i - 1);
    } else if m > i {
        lemma_byte_pos_mono(s, i, m - 1);
    }
}

proof fn lemma_next_newline_skip(s: Seq<char>, p: int, k: int)
    requires
        0 <= p <= k <= s.len(),
        forall|j: int| p <= j < k ==> s[j] != '\n',
    ensures
        next_newline_from(s, p) == next_newline_from(s, k),
    decreases k - p,
{
    if p < k {
        lemma_next_newline_skip(s, p + 1, k);
    }
}

/// The line holding character index `k` starts just after the last newline before it.
proof fn lemma_line_start_of_index(s: Seq<char>, k: int)
    requires
        0 <= k <= s.len(),
    ensures
        line_start(s, count_newlines(s, k)) == last_newline_before(s, k) + 1,
    decreases k,
{
    if k > 0 {
        lemma_line_start_of_index(s, k - 1);
        if s[k - 1] == '\n' {
            let c = count_newlines(s, k - 1);
            let p = last_newline_before(s, k - 1) + 1;
            lemma_last_newline_bounds(s, k - 1);
            lemma_next_newline_skip(s, p, k - 1);
            assert(count_newlines(s, k) == c + 1);
            assert(line_start(s, c) == p);
            assert(next_newline_from(s, p) == k - 1);
        }
    }
}

/// Moving left goes to the nearest character boundary before the cursor
/// (staying at the start), and moving right to the nearest one after it
/// (staying at the end): one whole character, and no boundary is skipped.
pub proof fn law_char_moves(s: Seq<char>, c: int)
    requires
        is_boundary(s, c),
    ensures
        ({
            let l = prev_boundary_spec(s, c);
            c == 0 ==> l == 0
        }),
        ({
            let l = prev_boundary_spec(s, c);
            c > 0 ==> is_boundary(s, l) && l < c && forall|i: int|
                0 <= i <= s.len() ==> !(l < #[trigger] byte_pos(s, i) < c)
        }),
        ({
            let r = next_boundary_spec(s, c);
            c == byte_len(s) ==> r == c
        }),
        ({
            let r = next_boundary_spec(s, c);
            c < byte_len(s) ==> is_boundary(s, r) && c < r && forall|i: int|
                0 <= i <= s.len() ==> !(c < #[trigger] byte_pos(s, i) < r)
        }),
{
    let k = char_index_of(s, c);
    let w = choose|j: int| 0 <= j <= s.len() && byte_pos(s, j) == c;
    lemma_char_index_of(s, w);
    lemma_byte_pos_end(s);
    if k > 0 {
        lemma_byte_pos_strict(s, k - 1, k);
        lemma_char_index_of(s, k - 1);
        assert forall|i: int| 0 <= i <= s.len() implies !(prev_boundary_spec(s, c) < #[trigger] byte_pos(
            s,
            i,
        ) < c) by {
            if i < k - 1 {
                lemma_byte_pos_strict(s, i, k - 1);
            } else if i > k {
                lemma_byte_pos_strict(s, k, i);
            }
        }
    } else {
        assert(byte_pos(s, 0) == 0);
    }
    if k < s.len() {
        lemma_byte_pos_strict(s, k, k + 1);
        lemma_char_index_of(s, k + 1);
        lemma_byte_pos_strict(s, k, s.len() as int);
        assert forall|i: int| 0 <= i <= s.len() implies !(c < #[trigger] byte_pos(s, i)
            < next_boundary_spec(s, c)) by {
            if i < k {
                lemma_byte_pos_strict(s, i, k);
            } else if i > k + 1 {
                lemma_byte_pos_strict(s, k + 1, i);
            }
        }
    }
}

/// Moving to the (line, column) that `cursor_line_col` reports for a character
/// boundary lands on that same boundary.
pub proof fn law_line_col_roundtrip(s: Seq<char>, b: int)
    requires
        is_boundary(s, b),
    ensures
        ({
            let m = chars_before(s, b) as int;
            line_col_to_cursor_spec(s, line_col_of(s, m).0 as nat, line_col_of(s, m).1 as nat) == b
        }),
{
    let k = char_index_of(s, b);
    lemma_chars_before_boundary(s, k);
    let m = chars_before(s, b) as int;
    assert(m == k);
    lemma_line_start_of_index(s, k);
    lemma_last_newline_bounds(s, k);
    let p = last_newline_before(s, k) + 1;
    lemma_next_newline_skip(s, p, k);
    lemma_next_newline_bounds(s, k);
    assert(line_start(s, count_newlines(s, k)) == p);
}

pub proof fn lemma_prev_word_index_bounds(s: Seq<char>, k: int)
    requires
        0 <= k <= s.len(),
    ensures
        0 <= prev_word_index(s, k) <= k,
{
    let j = run_start(s, k, |c: char| is_white_space(c));
    lemma_run_start_bounds(s, k, |c: char| is_white_space(c));
    lemma_run_start_bounds(s, j, |c: char| word_char(c));
    lemma_run_start_bounds(s, j, |c: char| punct_char(c));
}

pub proof fn lemma_next_word_index_bounds(s: Seq<char>, k: int)
    requires
        0 <= k <= s.len(),
    ensures
        k <= next_word_index(s, k) <= s.len(),
{
    let j = run_end(s, k, |c: char| is_white_space(c));
    lemma_run_end_bounds(s, k, |c: char| is_white_space(c));
    lemma_run_end_bounds(s, j, |c: char| word_char(c));
    lemma_run_end_bounds(s, j, |c: char| punct_char(c));
}

pub proof fn lemma_start_end_of_line_bounds(s: Seq<char>, k: int)
    requires
        0 <= k <= s.len(),
    ensures
        0 <= last_newline_before(s, k) + 1 <= k,
        k <= next_newline_from(s, k) <= s.len(),
        next_newline_from(s, k) < s.len() ==> s[next_newline_from(s, k)] == '\n',
{
    lemma_last_newline_bounds(s, k);
    lemma_next_newline_bounds(s, k);
}

/// The line and column of character index `k` are at most `k`.
pub proof fn lemma_line_col_of_bounds(s: Seq<char>, k: int)
    requires
        0 <= k <= s.len(),
    ensures
        0 <= line_col_of(s, k).0 <= k,
        0 <= line_col_of(s, k).1 <= k,
    decreases k,
{
    lemma_last_newline_bounds(s, k);
    if k > 0 {
        lemma_line_col_of_bounds(s, k - 1);
    }
}

/// `line_col_to_cursor` always lands on a character boundary.
pub proof fn lemma_line_col_cursor_boundary(s: Seq<char>, line: nat, col: nat)
    ensures
        is_boundary(s, line_col_to_cursor_spec(s, line, col)),
{
    lemma_line_start_bounds(s, line);
    let p = line_start(s, line);
    if p < 0 {
        lemma_byte_pos_end(s);
        lemma_char_index_of(s, s.len() as int);
    } else {
        lemma_next_newline_bounds(s, p);
        let l = line_len(s, line);
        let c = if col < l {
            col as int
        } else {
            l as int
        };
        lemma_char_index_of(s, p + c);
    }
}

/// There is no line after the last one.
pub proof fn lemma_line_after_last(s: Seq<char>)
    ensures
        line_start(s, count_newlines(s, s.len() as int) + 1) < 0,
{
    let n = s.len() as int;
    lemma_line_start_of_index(s, n);
    lemma_last_newline_bounds(s, n);
    let p = last_newline_before(s, n) + 1;
    lemma_next_newline_skip(s, p, n);
}

// ---------- executable helpers ----------

/// Byte offset of character index `k` of `chars`.
pub fn byte_offset(chars: &Vec<char>, k: usize) -> (b: usize)
    requires
        k <= chars.len(),
        byte_len(chars@) <= usize::MAX,
    ensures
        b == byte_pos(chars@, k as int),
{
    let mut i: usize = 0;
    let mut pos: usize = 0;
    while i < k
        invariant
            i <= k <= chars.len(),
            byte_len(chars@) <= usize::MAX,
            pos == byte_pos(chars@, i as int),
        decreases k - i,
    {
        proof {
            lemma_byte_pos_step(chars@, i as int);
            lemma_byte_pos_le_len(chars@, i + 1);
        }
        pos = pos + char_byte_len(chars[i]);
        i = i + 1;
    }
    pos
}

/// Character index of the boundary `cursor` of `chars`.
pub fn char_index(chars: &Vec<char>, cursor: usize) -> (k: usize)
    requires
        is_boundary(chars@, cursor as int),
        byte_len(chars@) <= usize::MAX,
    ensures
        k == char_index_of(chars@, cursor as int),
        k <= chars.len(),
        byte_pos(chars@, k as int) == cursor,
{
    let ghost kk = char_index_of(chars@, cursor as int);
    let mut i: usize = 0;
    let mut pos: usize = 0;
    while pos < cursor
        invariant
            0 <= kk <= chars.len(),
            byte_pos(chars@, kk) == cursor,
            i <= kk,
            byte_len(chars@) <= usize::MAX,
            pos == byte_pos(chars@, i as int),
        decreases kk - i,
    {
        proof {
            if i as int == kk {
                assert(false);
            }
            lemma_byte_pos_step(chars@, i as int);
            lemma_byte_pos_le_len(chars@, i + 1);
            lemma_byte_pos_mono(chars@, i + 1, kk);
        }
        pos = pos + char_byte_len(chars[i]);
        i = i + 1;
    }
    proof {
        if (i as int) < kk {
            lemma_byte_pos_strict(chars@, i as int, kk);
        }
    }
    i
}

/// Index of the first `'\n'` at or after `k`, or the length.
pub fn next_newline(chars: &Vec<char>, k: usize) -> (q: usize)
    requires
        k <= chars.len(),
    ensures
        q == next_newline_from(chars@, k as int),
{
    let mut i = k;
    while i < chars.len() && chars[i] != '\n'
        invariant
            k <= i <= chars.len(),
            next_newline_from(chars@, i as int) == next_newline_from(chars@, k as int),
        decreases chars.len() - i,
    {
        i = i + 1;
    }
    i
}

/// Start index of line `target`, if the buffer has that many lines.
pub(crate) fn find_line_start(chars: &Vec<char>, target: usize) -> (r: Option<usize>)
    ensures
        match r {
            Some(p) => p == line_start(chars@, target as nat) && p <= chars.len(),
            None => line_start(chars@, target as nat) < 0,
        },
{
    let mut line: usize = 0;
    let mut start: usize = 0;
    while line < target
        invariant
            line <= target,
            start <= chars.len(),
            start as int == line_start(chars@, line as nat),
        decreases target - line,
    {
        let q = next_newline(chars, start);
        if q >= chars.len() {
            proof {
                assert(line_start(chars@, (line + 1) as nat) < 0);
                lemma_line_start_missing(chars@, (line + 1) as nat, target as nat);
            }
            return None;
        }
        start = q + 1;
        line = line + 1;
    }
    Some(start)
}

proof fn lemma_line_start_missing(s: Seq<char>, t: nat, u: nat)
    requires
        t <= u,
        line_start(s, t) < 0,
    ensures
        line_start(s, u) < 0,
    decreases u - t,
{
    if t < u {
        lemma_line_start_missing(s, t, (u - 1) as nat);
    }
}

/// Forward scan of a run of characters satisfying a class, from character index `k`.
fn scan_run_end(chars: &Vec<char>, k: usize, class: u8) -> (j: usize)
    requires
        k <= chars.len(),
        class < 3,
    ensures
        j == run_end(chars@, k as int, class_pred(class)),
{
    let mut i = k;
    while i < chars.len() && char_in_class(chars[i], class)
        invariant
            k <= i <= chars.len(),
            class < 3,
            run_end(chars@, i as int, class_pred(class)) == run_end(
                chars@,
                k as int,
                class_pred(class),
            ),
        decreases chars.len() - i,
    {
        i = i + 1;
    }
    i
}

/// Backward scan of a run of characters satisfying a class, ending at character index `k`.
fn scan_run_start(chars: &Vec<char>, k: usize, class: u8) -> (j: usize)
    requires
        k <= chars.len(),
        class < 3,
    ensures
        j == run_start(chars@, k as int, class_pred(class)),
{
    let mut i = k;
    while i > 0 && char_in_class(chars[i - 1], class)
        invariant
            i <= k <= chars.len(),
            class < 3,
            run_start(chars@, i as int, class_pred(class)) == run_start(
                chars@,
                k as int,
                class_pred(class),
            ),
        decreases i,
    {
        i = i - 1;
    }
    i
}

/// The three character classes of word motion: 0 white space, 1 word, 2 punctuation.
pub open spec fn class_pred(class: u8) -> spec_fn(char) -> bool {
    if class == 0 {
        |c: char| is_white_space(c)
    } else if class == 1 {
        |c: char| word_char(c)
    } else {
        |c: char| punct_char(c)
    }
}

fn char_in_class(c: char, class: u8) -> (r: bool)
    requires
        class < 3,
    ensures
        r == (class_pred(class))(c),
{
    if class == 0 {
        char_is_whitespace(c)
    } else if class == 1 {
        is_word_char(c)
    } else {
        !char_is_whitespace(c) && !is_word_char(c)
    }
}

// ---------- the cursor functions ----------

/// Byte offset of the character before `cursor` (0 at the start).
pub fn prev_char_boundary(s: &str, cursor: usize) -> (r: usize)
    requires
        is_boundary(s@, cursor as int),
    ensures
        r == prev_boundary_spec(s@, cursor as int),
{
    let n = str_byte_len(s);
    let chars = collect_chars(s);
    let k = char_index(&chars, cursor);
    if k == 0 {
        0
    } else {
        byte_offset(&chars, k - 1)
    }
}

/// Byte offset after the character at `cursor` (`cursor` itself at the end).
pub fn next_char_boundary(s: &str, cursor: usize) -> (r: usize)
    requires
        is_boundary(s@, cursor as int),
    ensures
        r == next_boundary_spec(s@, cursor as int),
{
    let n = str_byte_len(s);
    let chars = collect_chars(s);
    let k = char_index(&chars, cursor);
    if k < chars.len() {
        byte_offset(&chars, k + 1)
    } else {
        cursor
    }
}

/// Byte offset of the start of the line holding `cursor`.
pub fn start_of_line(s: &str, cursor: usize) -> (r: usize)
    requires
        is_boundary(s@, cursor as int),
    ensures
        r == start_of_line_spec(s@, cursor as int),
{
    let n = str_byte_len(s);
    let chars = collect_chars(s);
    if cursor == 0 {
        proof {
            lemma_char_index_of(s@, 0);
        }
        return 0;
    }
    let k = char_index(&chars, cursor);
    let mut i = k;
    while i > 0 && chars[i - 1] != '\n'
        invariant
            i <= k <= chars.len(),
            last_newline_before(chars@, i as int) == last_newline_before(chars@, k as int),
        decreases i,
    {
        i = i - 1;
    }
    byte_offset(&chars, i)
}

/// Byte offset of the `'\n'` ending the line holding `cursor`, or the length on the last line.
pub fn end_of_line(s: &str, cursor: usize) -> (r: usize)
    requires
        is_boundary(s@, cursor as int),
    ensures
        r == end_of_line_spec(s@, cursor as int),
{
    let n = str_byte_len(s);
    let chars = collect_chars(s);
    let k = char_index(&chars, cursor);
    let q = next_newline(&chars, k);
    proof {
        lemma_next_newline_bounds(chars@, k as int);
    }
    byte_offset(&chars, q)
}

/// (line, column) of the cursor; the column counts characters.
pub fn cursor_line_col(s: &str, cursor: usize) -> (r: (usize, usize))
    ensures
        r.0 == line_col_of(s@, chars_before(s@, cursor as int) as int).0,
        r.1 == line_col_of(s@, chars_before(s@, cursor as int) as int).1,
{
    let n = str_byte_len(s);
    let chars = collect_chars(s);
    let mut line: usize = 0;
    let mut col: usize = 0;
    let mut i: usize = 0;
    let mut pos: usize = 0;
    while i < chars.len() && pos < cursor
        invariant
            i <= chars.len(),
            byte_len(chars@) <= usize::MAX,
            pos == byte_pos(chars@, i as int),
            i == 0 || byte_pos(chars@, i - 1) < cursor,
            line == count_newlines(chars@, i as int),
            col == i - 1 - last_newline_before(chars@, i as int),
            line <= i,
            col <= i,
        decreases chars.len() - i,
    {
        proof {
            lemma_byte_pos_step(chars@, i as int);
            lemma_byte_pos_le_len(chars@, i + 1);
            lemma_last_newline_bounds(chars@, i as int);
        }
        if chars[i] == '\n' {
            line = line + 1;
            col = 0;
        } else {
            col = col + 1;
        }
        pos = pos + char_byte_len(chars[i]);
        i = i + 1;
    }
    proof {
        lemma_chars_before_exact(chars@, cursor as int, i as int);
    }
    (line, col)
}

/// Number of characters on line `target_line` (0 when there is no such line).
pub fn line_length(s: &str, target_line: usize) -> (r: usize)
    ensures
        r == line_len(s@, target_line as nat),
{
    let chars = collect_chars(s);
    match find_line_start(&chars, target_line) {
        None => 0,
        Some(p) => {
            let q = next_newline(&chars, p);
            proof {
                lemma_next_newline_bounds(chars@, p as int);
            }
            q - p
        },
    }
}

/// Byte offset of (line, column), the column clamped to the line's length;
/// the length of `s` when the line does not exist.
pub fn line_col_to_cursor(s: &str, target_line: usize, target_col: usize) -> (r: usize)
    ensures
        r == line_col_to_cursor_spec(s@, target_line as nat, target_col as nat),
{
    let n = str_byte_len(s);
    let chars = collect_chars(s);
    match find_line_start(&chars, target_line) {
        None => n,
        Some(p) => {
            let q = next_newline(&chars, p);
            proof {
                lemma_next_newline_bounds(chars@, p as int);
            }
            let l = q - p;
            let c = if target_col < l {
                target_col
            } else {
                l
            };
            byte_offset(&chars, p + c)
        },
    }
}

/// Letters, digits and `_`.
pub fn is_word_char(c: char) -> (r: bool)
    ensures
        r == word_char(c),
{
    char_is_alphanumeric(c) || c == '_'
}

/// Byte offset reached by deleting a word backwards from `cursor`:
/// white space first, then a run of word characters or of punctuation.
/// Character index reached by deleting one word backwards from character `k`.
pub fn prev_word_char_index(chars: &Vec<char>, k: usize) -> (r: usize)
    requires
        k <= chars.len(),
    ensures
        r == prev_word_index(chars@, k as int),
        r <= k,
{
    let j = scan_run_start(&chars, k, 0);
    proof {
        lemma_run_start_bounds(chars@, k as int, class_pred(0));
    }
    let r = if j > 0 && is_word_char(chars[j - 1]) {
        scan_run_start(&chars, j, 1)
    } else if j > 0 {
        scan_run_start(&chars, j, 2)
    } else {
        j
    };
    proof {
        lemma_run_start_bounds(chars@, j as int, class_pred(1));
        lemma_run_start_bounds(chars@, j as int, class_pred(2));
        assert(class_pred(0) == (|c: char| is_white_space(c)));
        assert(class_pred(1) == (|c: char| word_char(c)));
        assert(class_pred(2) == (|c: char| punct_char(c)));
    }
    r
}

pub fn prev_word_boundary(s: &str, cursor: usize) -> (r: usize)
    requires
        is_boundary(s@, cursor as int),
    ensures
        r == byte_pos(s@, prev_word_index(s@, char_index_of(s@, cursor as int))),
{
    let n = str_byte_len(s);
    let chars = collect_chars(s);
    let k = char_index(&chars, cursor);
    let j = scan_run_start(&chars, k, 0);
    proof {
        lemma_run_start_bounds(chars@, k as int, class_pred(0));
    }
    let r = if j > 0 && is_word_char(chars[j - 1]) {
        scan_run_start(&chars, j, 1)
    } else if j > 0 {
        scan_run_start(&chars, j, 2)
    } else {
        j
    };
    proof {
        lemma_run_start_bounds(chars@, j as int, class_pred(1));
        lemma_run_start_bounds(chars@, j as int, class_pred(2));
        assert(class_pred(0) == (|c: char| is_white_space(c)));
        assert(class_pred(1) == (|c: char| word_char(c)));
        assert(class_pred(2) == (|c: char| punct_char(c)));
    }
    byte_offset(&chars, r)
}

/// Byte offset reached by deleting a word forwards from `cursor`:
/// white space first, then a run of word characters or of punctuation.
pub fn next_word_boundary(s: &str, cursor: usize) -> (r: usize)
    requires
        is_boundary(s@, cursor as int),
    ensures
        r == byte_pos(s@, next_word_index(s@, char_index_of(s@, cursor as int))),
{
    let n = str_byte_len(s);
    let chars = collect_chars(s);
    let k = char_index(&chars, cursor);
    let j = scan_run_end(&chars, k, 0);
    proof {
        lemma_run_end_bounds(chars@, k as int, class_pred(0));
    }
    let r = if j < chars.len() && is_word_char(chars[j]) {
        scan_run_end(&chars, j, 1)
    } else if j < chars.len() {
        scan_run_end(&chars, j, 2)
    } else {
        j
    };
    proof {
        lemma_run_end_bounds(chars@, j as int, class_pred(1));
        lemma_run_end_bounds(chars@, j as int, class_pred(2));
        assert(class_pred(0) == (|c: char| is_white_space(c)));
        assert(class_pred(1) == (|c: char| word_char(c)));
        assert(class_pred(2) == (|c: char| punct_char(c)));
    }
    byte_offset(&chars, r)
}

} // verus!
