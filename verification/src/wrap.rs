//! Wrapping log text to a display width: each line is cut into pieces
//! whose display width (as the `unicode-width` crate measures it) fits.
use vstd::prelude::*;
use crate::markdown::{split_chars, split_on, lemma_split_on_len};
use crate::text::{collect_chars, string_from_chars};
use crate::strutil::slice_chars;
use unicode_width::UnicodeWidthChar;
use unicode_width::UnicodeWidthStr;

verus! {

/// The display width of a character, `None` for a control character, as
/// `UnicodeWidthChar::width` gives it.
pub uninterp spec fn char_width(c: char) -> Option<usize>;

/// The display width of a string, as `UnicodeWidthStr::width` gives it.
pub uninterp spec fn str_width(s: Seq<char>) -> usize;

/// Calls `UnicodeWidthChar::width`; its result is named `char_width(c)`.
#[verifier::external_body]
fn unicode_char_width(c: char) -> (r: Option<usize>)
    ensures
        r == char_width(c),
{
    UnicodeWidthChar::width(c)
}

/// Calls `UnicodeWidthStr::width`; its result is named `str_width(s@)`.
#[verifier::external_body]
fn unicode_str_width(s: &str) -> (r: usize)
    ensures
        r == str_width(s@),
{
    UnicodeWidthStr::width(s)
}

/// A character's width, zero for a control character.
pub open spec fn width_or_zero(c: char) -> nat {
    match char_width(c) {
        Some(w) => w as nat,
        None => 0,
    }
}

/// How many characters of `s`, from `i` on with `acc` columns used, fit in
/// `max` columns: characters are taken until the next one would overflow.
pub open spec fn fit_from(s: Seq<char>, max: nat, i: int, acc: nat) -> int
    decreases s.len() - i,
{
    if i < 0 || i >= s.len() {
        s.len() as int
    } else if acc + width_or_zero(s[i]) > max {
        i
    } else {
        fit_from(s, max, i + 1, acc + width_or_zero(s[i]))
    }
}

/// Number of leading characters of `s` that fit in `max` columns (none
/// for an empty text or no columns).
pub open spec fn fit_len(s: Seq<char>, max: nat) -> int {
    if s.len() == 0 || max == 0 {
        0
    } else {
        fit_from(s, max, 0, 0)
    }
}

proof fn lemma_fit_from_bounds(s: Seq<char>, max: nat, i: int, acc: nat)
    requires
        0 <= i <= s.len(),
    ensures
        i <= fit_from(s, max, i, acc) <= s.len(),
    decreases s.len() - i,
{
    if i < s.len() && acc + width_or_zero(s[i]) <= max {
        lemma_fit_from_bounds(s, max, i + 1, acc + width_or_zero(s[i]));
    }
}

/// Splits `text` where its display width would exceed `max_width`: the
/// first part is the characters that fit, the second the rest.
pub fn split_at_display_width(text: &Vec<char>, max_width: usize) -> (r: (Vec<char>, Vec<char>))
    ensures
        0 <= fit_len(text@, max_width as nat) <= text@.len(),
        r.0@ == text@.take(fit_len(text@, max_width as nat)),
        r.1@ == text@.skip(fit_len(text@, max_width as nat)),
{
    if text.len() == 0 || max_width == 0 {
        let rest = slice_chars(text, 0, text.len());
        assert(rest@ =~= text@.skip(0));
        assert(text@.take(0) =~= Seq::<char>::empty());
        return (Vec::new(), rest);
    }
    let mut acc: usize = 0;
    let mut i: usize = 0;
    while i < text.len()
        invariant
            i <= text@.len(),
            acc <= max_width,
            max_width > 0,
            fit_from(text@, max_width as nat, i as int, acc as nat) == fit_from(text@, max_width as nat, 0, 0),
        ensures
            i <= text@.len(),
            fit_from(text@, max_width as nat, 0, 0) == i,
        decreases text.len() - i,
    {
        let cw = match unicode_char_width(text[i]) {
            Some(w) => w,
            None => 0,
        };
        if cw > max_width - acc {
            break;
        }
        acc = acc + cw;
        i = i + 1;
    }
    proof {
        lemma_fit_from_bounds(text@, max_width as nat, 0, 0);
    }
    let head = slice_chars(text, 0, i);
    let rest = slice_chars(text, i, text.len());
    assert(head@ =~= text@.take(i as int));
    assert(rest@ =~= text@.skip(i as int));
    (head, rest)
}

/// The pieces that a line too wide for `max` columns is cut into: the
/// characters that fit, or a single character where none fits.
pub open spec fn chunks(s: Seq<char>, max: nat) -> Seq<Seq<char>>
    decreases s.len(),
{
    if s.len() == 0 {
        Seq::empty()
    } else {
        let k = fit_len(s, max);
        if k <= 0 {
            seq![s.take(1)] + chunks(s.skip(1), max)
        } else if k <= s.len() {
            seq![s.take(k)] + chunks(s.skip(k), max)
        } else {
            seq![s]
        }
    }
}

/// The lines of `s`, as `str::lines` gives them: pieces between line
/// breaks, a final empty piece dropped, and a carriage return before a
/// line break removed.
pub open spec fn text_lines(s: Seq<char>) -> Seq<Seq<char>> {
    let p = split_on(s, '\n');
    let head = p.drop_last().map_values(|l: Seq<char>| strip_cr(l));
    if p.last().len() > 0 {
        head.push(p.last())
    } else {
        head
    }
}

pub open spec fn strip_cr(l: Seq<char>) -> Seq<char> {
    if l.len() > 0 && l.last() == '\r' {
        l.drop_last()
    } else {
        l
    }
}

/// The rows of one line: an empty line stays one empty row, a line that
/// fits stays whole, a wider one is cut into chunks.
pub open spec fn line_rows(l: Seq<char>, max: nat) -> Seq<Seq<char>> {
    if l.len() == 0 {
        seq![Seq::<char>::empty()]
    } else if str_width(l) <= max {
        seq![l]
    } else {
        chunks(l, max)
    }
}

pub open spec fn rows_of(lines: Seq<Seq<char>>, max: nat) -> Seq<Seq<char>>
    decreases lines.len(),
{
    if lines.len() == 0 {
        Seq::empty()
    } else {
        rows_of(lines.drop_last(), max) + line_rows(lines.last(), max)
    }
}

/// The rows that `text` is wrapped into at `max` columns; never none.
pub open spec fn wrap_spec(text: Seq<char>, max: nat) -> Seq<Seq<char>> {
    let rows = rows_of(text_lines(text), max);
    if rows.len() == 0 {
        seq![Seq::<char>::empty()]
    } else {
        rows
    }
}

pub open spec fn rows_view(v: Seq<Vec<char>>) -> Seq<Seq<char>> {
    v.map_values(|r: Vec<char>| r@)
}

fn line_chunks(line: &Vec<char>, max_width: usize, out: &mut Vec<Vec<char>>)
    ensures
        rows_view(final(out)@) == rows_view(old(out)@) + chunks(line@, max_width as nat),
    decreases line@.len(),
{
    if line.len() == 0 {
        assert(rows_view(out@) =~= rows_view(out@) + Seq::<Seq<char>>::empty());
        return ;
    }
    let (seg, rest) = split_at_display_width(line, max_width);
    let ghost o = rows_view(out@);
    if seg.len() == 0 {
        let first = slice_chars(line, 0, 1);
        let tail = slice_chars(line, 1, line.len());
        assert(first@ =~= line@.take(1));
        assert(tail@ =~= line@.skip(1));
        out.push(first);
        assert(rows_view(out@) =~= o.push(line@.take(1)));
        line_chunks(&tail, max_width, out);
        assert(o.push(line@.take(1)) + chunks(line@.skip(1), max_width as nat) =~= o + (seq![line@.take(1)]
            + chunks(line@.skip(1), max_width as nat)));
    } else {
        out.push(seg);
        assert(rows_view(out@) =~= o.push(line@.take(fit_len(line@, max_width as nat))));
        line_chunks(&rest, max_width, out);
        let ghost k = fit_len(line@, max_width as nat);
        assert(o.push(line@.take(k)) + chunks(line@.skip(k), max_width as nat) =~= o + (seq![line@.take(k)]
            + chunks(line@.skip(k), max_width as nat)));
    }
}

/// The rows of one line.
fn wrap_one(line: &Vec<char>, max_width: usize, out: &mut Vec<Vec<char>>)
    ensures
        rows_view(final(out)@) == rows_view(old(out)@) + line_rows(line@, max_width as nat),
{
    let ghost o = rows_view(out@);
    if line.len() == 0 {
        out.push(Vec::new());
        assert(rows_view(out@) =~= o + seq![Seq::<char>::empty()]);
        return ;
    }
    let s = string_from_chars(line);
    if unicode_str_width(s.as_str()) <= max_width {
        let copy = slice_chars(line, 0, line.len());
        assert(copy@ =~= line@);
        out.push(copy);
        assert(rows_view(out@) =~= o + seq![line@]);
    } else {
        line_chunks(line, max_width, out);
    }
}

/// Wraps `text` into rows of at most `max_width` display columns (a single
/// character wider than that stands on a row of its own).
pub fn wrap_text(text: &str, max_width: usize) -> (r: Vec<String>)
    ensures
        r@.map_values(|s: String| s@) == wrap_spec(text@, max_width as nat),
{
    let v = collect_chars(text);
    let pieces = split_chars(&v, '\n');
    proof {
        lemma_split_on_len(v@, '\n');
    }
    let ghost pv = pieces@.map_values(|p: Vec<char>| p@);
    let ghost lines = text_lines(text@);
    let n = pieces.len();
    let mut rows: Vec<Vec<char>> = Vec::new();
    let mut i: usize = 0;
    assert(rows_of(lines.take(0), max_width as nat) =~= Seq::<Seq<char>>::empty());
    while i + 1 < n
        invariant
            n == pieces@.len(),
            n >= 1,
            i < n,
            pv == pieces@.map_values(|p: Vec<char>| p@),
            pv == split_on(text@, '\n'),
            lines == text_lines(text@),
            lines.len() >= n - 1,
            forall|j: int| 0 <= j < n - 1 ==> #[trigger] lines[j] == strip_cr(pv[j]),
            rows_view(rows@) == rows_of(lines.take(i as int), max_width as nat),
        decreases n - i,
    {
        let piece = &pieces[i];
        let line = if piece.len() > 0 && piece[piece.len() - 1] == '\r' {
            slice_chars(piece, 0, piece.len() - 1)
        } else {
            slice_chars(piece, 0, piece.len())
        };
        proof {
            assert(pv[i as int] == piece@);
            if piece@.len() > 0 && piece@.last() == '\r' {
                assert(line@ =~= piece@.drop_last());
            } else {
                assert(line@ =~= piece@);
            }
            assert(lines.take(i + 1).drop_last() =~= lines.take(i as int));
        }
        wrap_one(&line, max_width, &mut rows);
        i = i + 1;
    }
    let last = &pieces[n - 1];
    assert(pv[n - 1] == last@);
    if last.len() > 0 {
        assert(lines.len() == n);
        assert(lines.take(n - 1 + 1).drop_last() =~= lines.take(n - 1));
        wrap_one(last, max_width, &mut rows);
        assert(lines.take(n as int) =~= lines);
    } else {
        assert(lines.len() == n - 1);
        assert(lines.take(n - 1) =~= lines);
    }
    if rows.len() == 0 {
        rows.push(Vec::new());
        assert(rows_view(rows@) =~= seq![Seq::<char>::empty()]);
    }
    let mut out: Vec<String> = Vec::new();
    let mut j: usize = 0;
    while j < rows.len()
        invariant
            j <= rows@.len(),
            out@.map_values(|s: String| s@) == rows_view(rows@).take(j as int),
        decreases rows.len() - j,
    {
        let s = string_from_chars(&rows[j]);
        let ghost ob = out@;
        out.push(s);
        proof {
            assert(out@.map_values(|x: String| x@) =~= ob.map_values(|x: String| x@).push(s@));
            assert(rows_view(rows@).take(j + 1) =~= rows_view(rows@).take(j as int).push(rows@[j as int]@));
        }
        j = j + 1;
    }
    assert(rows_view(rows@).take(rows@.len() as int) =~= rows_view(rows@));
    out
}

// ---------- laws ----------

/// Columns taken by the characters of `s`.
pub open spec fn width_sum(s: Seq<char>) -> nat
    decreases s.len(),
{
    if s.len() == 0 {
        0
    } else {
        width_sum(s.drop_last()) + width_or_zero(s.last())
    }
}

/// The pieces joined back together.
pub open spec fn concat_all(rows: Seq<Seq<char>>) -> Seq<char>
    decreases rows.len(),
{
    if rows.len() == 0 {
        Seq::empty()
    } else {
        rows[0] + concat_all(rows.drop_first())
    }
}

proof fn lemma_fit_from_fits(s: Seq<char>, max: nat, i: int, acc: nat)
    requires
        0 <= i <= s.len(),
        acc == width_sum(s.take(i)),
        acc <= max,
    ensures
        width_sum(s.take(fit_from(s, max, i, acc))) <= max,
    decreases s.len() - i,
{
    if i < s.len() && acc + width_or_zero(s[i]) <= max {
        assert(s.take(i + 1).drop_last() =~= s.take(i));
        lemma_fit_from_fits(s, max, i + 1, acc + width_or_zero(s[i]));
    }
}

/// The first part of a split fits in the width.
pub proof fn law_split_prefix_fits(s: Seq<char>, max: nat)
    ensures
        width_sum(s.take(fit_len(s, max))) <= max,
{
    assert(s.take(0) =~= Seq::<char>::empty());
    if s.len() > 0 && max > 0 {
        lemma_fit_from_fits(s, max, 0, 0);
    }
}

/// The chunks of a line are non-empty, each fits in the width or is a
/// single character, and together they are the line.
pub proof fn law_chunks_cover(s: Seq<char>, max: nat)
    ensures
        concat_all(chunks(s, max)) == s,
        forall|j: int| 0 <= j < chunks(s, max).len() ==> {
            let c = #[trigger] chunks(s, max)[j];
            c.len() >= 1 && (width_sum(c) <= max || c.len() == 1)
        },
    decreases s.len(),
{
    if s.len() > 0 {
        let k = fit_len(s, max);
        if s.len() > 0 && max > 0 {
            lemma_fit_from_bounds(s, max, 0, 0);
        }
        law_split_prefix_fits(s, max);
        let head = if k <= 0 { s.take(1) } else { s.take(k) };
        let tail = if k <= 0 { s.skip(1) } else { s.skip(k) };
        assert(k <= s.len());
        if k < s.len() || k <= 0 {
            law_chunks_cover(tail, max);
        } else {
            assert(tail =~= Seq::<char>::empty());
            law_chunks_cover(tail, max);
        }
        let all = chunks(s, max);
        assert(all == seq![head] + chunks(tail, max));
        assert(all.drop_first() =~= chunks(tail, max));
        assert(head + tail =~= s);
        assert forall|j: int| 0 <= j < all.len() implies {
            let c = #[trigger] all[j];
            c.len() >= 1 && (width_sum(c) <= max || c.len() == 1)
        } by {
            if j > 0 {
                assert(all[j] == chunks(tail, max)[j - 1]);
            }
        }
    }
}

/// The lines of `text`, as `str::lines` gives them.
pub fn lines_of(text: &str) -> (r: Vec<String>)
    ensures
        r@.map_values(|s: String| s@) == text_lines(text@),
{
    let v = collect_chars(text);
    let pieces = split_chars(&v, '\n');
    proof {
        lemma_split_on_len(v@, '\n');
    }
    let ghost pv = pieces@.map_values(|p: Vec<char>| p@);
    let ghost lines = text_lines(text@);
    let n = pieces.len();
    let mut out: Vec<String> = Vec::new();
    let mut i: usize = 0;
    while i + 1 < n
        invariant
            n == pieces@.len(),
            n >= 1,
            i < n,
            pv == pieces@.map_values(|p: Vec<char>| p@),
            pv == split_on(text@, '\n'),
            lines == text_lines(text@),
            lines.len() >= n - 1,
            forall|j: int| 0 <= j < n - 1 ==> #[trigger] lines[j] == strip_cr(pv[j]),
            out@.map_values(|s: String| s@) == lines.take(i as int),
        decreases n - i,
    {
        let piece = &pieces[i];
        let line = if piece.len() > 0 && piece[piece.len() - 1] == '\r' {
            slice_chars(piece, 0, piece.len() - 1)
        } else {
            slice_chars(piece, 0, piece.len())
        };
        proof {
            assert(pv[i as int] == piece@);
            if piece@.len() > 0 && piece@.last() == '\r' {
                assert(line@ =~= piece@.drop_last());
            } else {
                assert(line@ =~= piece@);
            }
        }
        let s = string_from_chars(&line);
        let ghost ob = out@;
        out.push(s);
        proof {
            assert(out@.map_values(|x: String| x@) =~= ob.map_values(|x: String| x@).push(s@));
            assert(lines.take(i + 1) =~= lines.take(i as int).push(lines[i as int]));
        }
        i = i + 1;
    }
    let last = &pieces[n - 1];
    assert(pv[n - 1] == last@);
    if last.len() > 0 {
        let s = string_from_chars(last);
        let ghost ob = out@;
        out.push(s);
        proof {
            assert(lines.len() == n);
            assert(out@.map_values(|x: String| x@) =~= ob.map_values(|x: String| x@).push(s@));
            assert(lines.take(n as int) =~= lines.take(n - 1).push(lines[n - 1]));
            assert(lines.take(n as int) =~= lines);
        }
    } else {
        assert(lines.len() == n - 1);
        assert(lines.take(n - 1) =~= lines);
    }
    out
}

} // verus!
