//! How a log line is drawn when it is a search hit or holds a selection:
//! the pieces of a line that a search highlights, the byte range of a
//! selected word, and which of the ways of drawing a line applies.
use vstd::prelude::*;
use crate::cursor::char_index;
use crate::log_view::SearchState;
use crate::strutil::{lowercase, occurs_at, occurs_at_exec, slice_chars, to_lowercase};
use crate::viewport::{is_selected, selected_spec};
use crate::text::{
    byte_len, byte_pos, char_byte_len, char_index_of, collect_chars, is_boundary, string_from_chars, lemma_byte_pos_concat,
    lemma_byte_pos_concat_prefix, lemma_byte_pos_end, lemma_byte_pos_le_len, lemma_byte_pos_mono,
    lemma_byte_pos_step, lemma_byte_pos_strict, lemma_byte_pos_take, str_byte_len,
};

verus! {

// ---------- character boundaries ----------

/// `r` is the greatest character boundary of `s` that is at most `b`.
pub open spec fn is_floor_boundary(s: Seq<char>, b: int, r: int) -> bool {
    &&& is_boundary(s, r)
    &&& r <= b
    &&& forall|k: int| 0 <= k <= s.len() && byte_pos(s, k) <= b ==> byte_pos(s, k) <= r
}

/// The greatest character boundary of `s` at most `b` (for `b >= 0`).
pub open spec fn floor_boundary(s: Seq<char>, b: int) -> int {
    choose|r: int| is_floor_boundary(s, b, r)
}

/// Two greatest boundaries below the same offset are equal.
pub proof fn lemma_floor_boundary_unique(s: Seq<char>, b: int, r: int)
    requires
        is_floor_boundary(s, b, r),
    ensures
        floor_boundary(s, b) == r,
{
    let q = floor_boundary(s, b);
    assert(is_floor_boundary(s, b, q));
    let kq = choose|k: int| 0 <= k <= s.len() && byte_pos(s, k) == q;
    let kr = choose|k: int| 0 <= k <= s.len() && byte_pos(s, k) == r;
    assert(byte_pos(s, kq) <= r);
    assert(byte_pos(s, kr) <= q);
}

/// Whether `b` is a character boundary of `chars` (an offset at which a
/// character starts, or the length in bytes).
pub fn is_char_boundary(chars: &Vec<char>, b: usize) -> (r: bool)
    requires
        byte_len(chars@) <= usize::MAX,
    ensures
        r == is_boundary(chars@, b as int),
{
    let mut i: usize = 0;
    let mut pos: usize = 0;
    while i < chars.len() && pos < b
        invariant
            i <= chars.len(),
            byte_len(chars@) <= usize::MAX,
            pos == byte_pos(chars@, i as int),
            forall|k: int| 0 <= k < i ==> #[trigger] byte_pos(chars@, k) < b,
        decreases chars.len() - i,
    {
        proof {
            lemma_byte_pos_step(chars@, i as int);
            lemma_byte_pos_le_len(chars@, i + 1);
        }
        pos = pos + char_byte_len(chars[i]);
        i = i + 1;
    }
    if pos == b {
        assert(0 <= i <= chars.len() && byte_pos(chars@, i as int) == b);
        true
    } else {
        assert forall|k: int| 0 <= k <= chars.len() implies byte_pos(chars@, k) != b by {
            if k > i {
                lemma_byte_pos_strict(chars@, i as int, k);
            }
        }
        false
    }
}

/// The greatest character boundary of `chars` that is at most `b`.
pub fn floor_char_boundary(chars: &Vec<char>, b: usize) -> (r: usize)
    requires
        byte_len(chars@) <= usize::MAX,
    ensures
        r == floor_boundary(chars@, b as int),
        is_floor_boundary(chars@, b as int, r as int),
{
    let mut i: usize = 0;
    let mut pos: usize = 0;
    while i < chars.len()
        invariant
            i <= chars.len(),
            byte_len(chars@) <= usize::MAX,
            pos == byte_pos(chars@, i as int),
            pos <= b,
        ensures
            i < chars.len() ==> byte_pos(chars@, i + 1) > b,
            pos == byte_pos(chars@, i as int),
            pos <= b,
            i <= chars.len(),
        decreases chars.len() - i,
    {
        proof {
            lemma_byte_pos_step(chars@, i as int);
            lemma_byte_pos_le_len(chars@, i + 1);
        }
        let next = pos + char_byte_len(chars[i]);
        if next > b {
            break;
        }
        pos = next;
        i = i + 1;
    }
    proof {
        assert(0 <= i <= chars.len() && byte_pos(chars@, i as int) == pos);
        assert forall|k: int| 0 <= k <= chars.len() && byte_pos(chars@, k) <= b implies byte_pos(
            chars@,
            k,
        ) <= pos by {
            if k > i {
                lemma_byte_pos_mono(chars@, i + 1, k);
            } else {
                lemma_byte_pos_mono(chars@, k, i as int);
            }
        }
        lemma_floor_boundary_unique(chars@, b as int, pos as int);
    }
    pos
}

// ---------- search highlighting ----------

/// A byte range of a line, drawn highlighted when `hit`.
#[derive(Clone, Copy, Debug, PartialEq, Eq, Structural)]
pub struct Segment {
    pub start: usize,
    pub end: usize,
    pub hit: bool,
}

/// The byte ranges of the matches of `t` in `h`, scanning from character
/// index `i`: each leftmost match is taken and the scan goes on after it,
/// so matches do not overlap.
pub open spec fn match_ranges(h: Seq<char>, t: Seq<char>, i: int) -> Seq<(int, int)>
    decreases h.len() - i,
{
    if t.len() == 0 || i < 0 || i + t.len() > h.len() {
        Seq::empty()
    } else if occurs_at(h, t, i) {
        seq![(byte_pos(h, i) as int, byte_pos(h, i + t.len()) as int)] + match_ranges(
            h,
            t,
            i + t.len(),
        )
    } else {
        match_ranges(h, t, i + 1)
    }
}

/// The segments of a line of `n` bytes cut at the match ranges `m`, from
/// offset `last` on: the text before each match, each match (a hit), and
/// what follows the last match.
pub open spec fn cut_segments(m: Seq<(int, int)>, n: int, last: int) -> Seq<(int, int, bool)>
    decreases m.len(),
{
    if m.len() == 0 {
        if last < n {
            seq![(last, n, false)]
        } else {
            Seq::empty()
        }
    } else {
        (if m[0].0 > last {
            seq![(last, m[0].0, false)]
        } else {
            Seq::empty()
        }) + seq![(m[0].0, m[0].1, true)] + cut_segments(m.drop_first(), n, m[0].1)
    }
}

/// Every match range starts and ends at a character boundary of `raw`.
pub open spec fn ranges_on_boundaries(raw: Seq<char>, m: Seq<(int, int)>) -> bool {
    forall|k: int|
        0 <= k < m.len() ==> is_boundary(raw, #[trigger] m[k].0) && is_boundary(raw, m[k].1)
}

pub open spec fn segments_view(v: Seq<Segment>) -> Seq<(int, int, bool)> {
    v.map_values(|s: Segment| (s.start as int, s.end as int, s.hit))
}

/// A match of `t` at `i` spans the byte length of `t`.
proof fn lemma_match_bytes(h: Seq<char>, t: Seq<char>, i: int)
    requires
        occurs_at(h, t, i),
    ensures
        byte_pos(h, i + t.len()) == byte_pos(h, i) + byte_len(t),
{
    let a = h.take(i);
    let c = h.skip(i + t.len());
    assert(h =~= a + (t + c));
    lemma_byte_pos_concat(a, t + c, i);
    lemma_byte_pos_concat(a, t + c, i + t.len());
    lemma_byte_pos_concat_prefix(t, c, t.len() as int);
    lemma_byte_pos_end(t);
}

/// The segments cover the bytes from `from` to `to` in order, each one
/// ending where the next begins.
pub open spec fn tiles(segs: Seq<(int, int, bool)>, from: int, to: int) -> bool
    decreases segs.len(),
{
    if segs.len() == 0 {
        from == to
    } else {
        segs[0].0 == from && segs[0].0 < segs[0].1 && tiles(segs.drop_first(), segs[0].1, to)
    }
}

/// The byte ranges of the highlighted segments, in order.
pub open spec fn hit_ranges(segs: Seq<(int, int, bool)>) -> Seq<(int, int)>
    decreases segs.len(),
{
    if segs.len() == 0 {
        Seq::empty()
    } else {
        (if segs[0].2 {
            seq![(segs[0].0, segs[0].1)]
        } else {
            Seq::empty()
        }) + hit_ranges(segs.drop_first())
    }
}

/// The ranges are non-empty, in order, do not overlap, start at or after
/// `last` and end at or before `n`.
pub open spec fn ordered_ranges(m: Seq<(int, int)>, last: int, n: int) -> bool
    decreases m.len(),
{
    if m.len() == 0 {
        last <= n
    } else {
        last <= m[0].0 && m[0].0 < m[0].1 && ordered_ranges(m.drop_first(), m[0].1, n)
    }
}

proof fn lemma_hit_ranges_concat(a: Seq<(int, int, bool)>, b: Seq<(int, int, bool)>)
    ensures
        hit_ranges(a + b) == hit_ranges(a) + hit_ranges(b),
    decreases a.len(),
{
    if a.len() == 0 {
        assert(a + b =~= b);
        assert(hit_ranges(a) + hit_ranges(b) =~= hit_ranges(b));
    } else {
        assert((a + b).drop_first() =~= a.drop_first() + b);
        lemma_hit_ranges_concat(a.drop_first(), b);
        let h: Seq<(int, int)> = if a[0].2 {
            seq![(a[0].0, a[0].1)]
        } else {
            Seq::empty()
        };
        assert(hit_ranges(a + b) == h + hit_ranges(a.drop_first() + b));
        assert(h + (hit_ranges(a.drop_first()) + hit_ranges(b)) =~= (h + hit_ranges(a.drop_first()))
            + hit_ranges(b));
    }
}

proof fn lemma_tiles_concat(a: Seq<(int, int, bool)>, b: Seq<(int, int, bool)>, x: int, y: int, z: int)
    requires
        tiles(a, x, y),
        tiles(b, y, z),
    ensures
        tiles(a + b, x, z),
    decreases a.len(),
{
    if a.len() == 0 {
        assert(a + b =~= b);
    } else {
        assert((a + b).drop_first() =~= a.drop_first() + b);
        lemma_tiles_concat(a.drop_first(), b, a[0].1, y, z);
    }
}

/// Cutting a line at ordered ranges tiles it, and the highlighted pieces
/// are the ranges.
proof fn lemma_cut_segments(m: Seq<(int, int)>, n: int, last: int)
    requires
        ordered_ranges(m, last, n),
    ensures
        tiles(cut_segments(m, n, last), last, n),
        hit_ranges(cut_segments(m, n, last)) == m,
    decreases m.len(),
{
    if m.len() == 0 {
        if last < n {
            let t = seq![(last, n, false)];
            assert(t.drop_first() =~= Seq::<(int, int, bool)>::empty());
            assert(tiles(t.drop_first(), n, n));
            assert(hit_ranges(t) =~= hit_ranges(t.drop_first()));
        }
    } else {
        lemma_cut_segments(m.drop_first(), n, m[0].1);
        let rest = cut_segments(m.drop_first(), n, m[0].1);
        let pre: Seq<(int, int, bool)> = if m[0].0 > last {
            seq![(last, m[0].0, false)]
        } else {
            Seq::empty()
        };
        let hit = seq![(m[0].0, m[0].1, true)];
        assert(hit.drop_first() =~= Seq::<(int, int, bool)>::empty());
        assert(tiles(hit.drop_first(), m[0].1, m[0].1));
        assert(tiles(hit, m[0].0, m[0].1));
        if m[0].0 > last {
            assert(pre.drop_first() =~= Seq::<(int, int, bool)>::empty());
            assert(tiles(pre.drop_first(), m[0].0, m[0].0));
            assert(tiles(pre, last, m[0].0));
            assert(hit_ranges(pre) =~= hit_ranges(pre.drop_first()));
        }
        lemma_tiles_concat(pre, hit, last, m[0].0, m[0].1);
        lemma_tiles_concat(pre + hit, rest, last, m[0].1, n);
        lemma_hit_ranges_concat(pre, hit);
        lemma_hit_ranges_concat(pre + hit, rest);
        assert(hit_ranges(hit) =~= seq![(m[0].0, m[0].1)] + hit_ranges(hit.drop_first()));
        assert(m =~= seq![(m[0].0, m[0].1)] + m.drop_first());
        assert(hit_ranges(pre) =~= Seq::<(int, int)>::empty());
        assert(hit_ranges(pre + hit) =~= seq![(m[0].0, m[0].1)]);
    }
}

/// The matches found from index `i` are ordered, start at or after the
/// offset of `i`, and end within `h`.
proof fn lemma_match_ranges_ordered(h: Seq<char>, t: Seq<char>, i: int, last: int)
    requires
        0 <= i,
        last <= byte_pos(h, i),
    ensures
        ordered_ranges(match_ranges(h, t, i), last, byte_len(h) as int),
    decreases h.len() - i,
{
    lemma_byte_pos_le_len(h, i);
    if t.len() == 0 || i + t.len() > h.len() {
    } else if occurs_at(h, t, i) {
        lemma_byte_pos_strict(h, i, i + t.len());
        lemma_match_ranges_ordered(h, t, i + t.len(), byte_pos(h, i + t.len()) as int);
        let m = match_ranges(h, t, i);
        assert(m.drop_first() =~= match_ranges(h, t, i + t.len()));
    } else {
        lemma_byte_pos_mono(h, i, i + 1);
        lemma_match_ranges_ordered(h, t, i + 1, last);
    }
}

/// Ordered ranges within `n` stay ordered within a larger bound.
proof fn lemma_ordered_ranges_widen(m: Seq<(int, int)>, last: int, n: int, n2: int)
    requires
        ordered_ranges(m, last, n),
        m.len() > 0 ==> m[m.len() - 1].1 <= n2,
        m.len() == 0 ==> last <= n2,
    ensures
        ordered_ranges(m, last, n2),
    decreases m.len(),
{
    if m.len() > 0 {
        let r = m.drop_first();
        if r.len() > 0 {
            assert(r[r.len() - 1] == m[m.len() - 1]);
        }
        lemma_ordered_ranges_widen(r, m[0].1, n, n2);
    }
}

/// Highlighting a search hit keeps the whole line: its pieces follow one
/// another from the start of the line to its end, and the highlighted ones
/// are exactly the matches of the lower-cased term in the lower-cased line,
/// in order.
pub proof fn law_highlight_tiles_line(raw: Seq<char>, lower_raw: Seq<char>, lower_term: Seq<char>)
    requires
        ranges_on_boundaries(raw, match_ranges(lower_raw, lower_term, 0)),
    ensures
        ({
            let m = match_ranges(lower_raw, lower_term, 0);
            let segs = cut_segments(m, byte_len(raw) as int, 0);
            tiles(segs, 0, byte_len(raw) as int) && hit_ranges(segs) == m
        }),
{
    let m = match_ranges(lower_raw, lower_term, 0);
    let n = byte_len(raw) as int;
    lemma_match_ranges_ordered(lower_raw, lower_term, 0, 0);
    if m.len() > 0 {
        let x = m[m.len() - 1].1;
        assert(is_boundary(raw, m[m.len() - 1].0));
        let k = choose|k: int| 0 <= k <= raw.len() && byte_pos(raw, k) == x;
        lemma_byte_pos_le_len(raw, k);
    }
    lemma_ordered_ranges_widen(m, 0, byte_len(lower_raw) as int, n);
    lemma_cut_segments(m, n, 0);
}

/// The segments of `raw` that a search for `lower_term` highlights, where
/// `lower_raw` and `lower_term` are the lower-case forms of the line and of
/// the term: matches are found in `lower_raw`, and their byte ranges cut
/// `raw`. `None` when the term is empty or a range does not fall on
/// character boundaries of `raw` (which happens only where lower-casing
/// changes the length of the text).
pub fn highlight_segments(raw: &str, lower_raw: &str, lower_term: &str) -> (r: Option<
    Vec<Segment>,
>)
    ensures
        ({
            let m = match_ranges(lower_raw@, lower_term@, 0);
            &&& r.is_some() <==> lower_term@.len() > 0 && ranges_on_boundaries(raw@, m)
            &&& r.is_some() ==> segments_view(r.unwrap()@) == cut_segments(
                m,
                byte_len(raw@) as int,
                0,
            )
        }),
{
    let h = collect_chars(lower_raw);
    let t = collect_chars(lower_term);
    let rc = collect_chars(raw);
    let n = str_byte_len(raw);
    let hb = str_byte_len(lower_raw);
    let tb = str_byte_len(lower_term);
    let ghost m = match_ranges(h@, t@, 0);
    if t.len() == 0 {
        return None;
    }
    let mut segs: Vec<Segment> = Vec::new();
    let mut last: usize = 0;
    let mut i: usize = 0;
    let mut pos: usize = 0;
    let ghost mut done: Seq<(int, int)> = Seq::empty();
    while i < h.len()
        invariant
            h@ == lower_raw@,
            t@ == lower_term@,
            rc@ == raw@,
            n == byte_len(raw@),
            hb == byte_len(h@),
            tb == byte_len(t@),
            t.len() > 0,
            m == match_ranges(h@, t@, 0),
            i <= h.len(),
            pos == byte_pos(h@, i as int),
            m == done + match_ranges(h@, t@, i as int),
            ranges_on_boundaries(raw@, done),
            segments_view(segs@) + cut_segments(match_ranges(h@, t@, i as int), n as int, last as int)
                == cut_segments(m, n as int, 0),
        decreases h.len() - i,
    {
        if occurs_at_exec(&h, &t, i) {
            proof {
                lemma_match_bytes(h@, t@, i as int);
                lemma_byte_pos_le_len(h@, i + t.len());
            }
            let e = pos + tb;
            let rest = Ghost(match_ranges(h@, t@, i + t.len()));
            assert(match_ranges(h@, t@, i as int) == seq![(pos as int, e as int)] + rest@);
            if !is_char_boundary(&rc, pos) || !is_char_boundary(&rc, e) {
                assert(m[done.len() as int] == (pos as int, e as int));
                return None;
            }
            let ghost old_segs = segments_view(segs@);
            if pos > last {
                segs.push(Segment { start: last, end: pos, hit: false });
            }
            segs.push(Segment { start: pos, end: e, hit: true });
            proof {
                assert((seq![(pos as int, e as int)] + rest@).drop_first() =~= rest@);
                let pre: Seq<(int, int, bool)> = if pos > last {
                    seq![(last as int, pos as int, false)]
                } else {
                    Seq::empty()
                };
                assert(segments_view(segs@) =~= old_segs + pre + seq![(pos as int, e as int, true)]);
                assert(cut_segments(seq![(pos as int, e as int)] + rest@, n as int, last as int)
                    == pre + seq![(pos as int, e as int, true)] + cut_segments(rest@, n as int, e as int));
                assert(segments_view(segs@) + cut_segments(rest@, n as int, e as int)
                    =~= old_segs + (pre + seq![(pos as int, e as int, true)] + cut_segments(rest@, n as int, e as int)));
                assert(m =~= (done + seq![(pos as int, e as int)]) + rest@);
                let nd = done + seq![(pos as int, e as int)];
                assert forall|k: int| 0 <= k < nd.len() implies is_boundary(raw@, #[trigger] nd[k].0)
                    && is_boundary(raw@, nd[k].1) by {
                    if k < done.len() {
                        assert(nd[k] == done[k]);
                    }
                }
                done = nd;
            }
            last = e;
            pos = e;
            i = i + t.len();
        } else {
            proof {
                lemma_byte_pos_step(h@, i as int);
                lemma_byte_pos_le_len(h@, i + 1);
            }
            pos = pos + char_byte_len(h[i]);
            i = i + 1;
        }
    }
    if last < n {
        let ghost old_segs = segments_view(segs@);
        segs.push(Segment { start: last, end: n, hit: false });
        assert(segments_view(segs@) =~= old_segs + seq![(last as int, n as int, false)]);
    } else {
        assert(segments_view(segs@) =~= segments_view(segs@) + Seq::<(int, int, bool)>::empty());
    }
    assert(m =~= done);
    Some(segs)
}

/// The segments of `raw` that a search for `term` highlights, matching
/// without regard to case (both are lower-cased by `str::to_lowercase`).
pub fn search_highlight(raw: &str, term: &str) -> (r: Option<Vec<Segment>>)
    ensures
        ({
            let m = match_ranges(lowercase(raw@), lowercase(term@), 0);
            &&& r.is_some() <==> lowercase(term@).len() > 0 && ranges_on_boundaries(raw@, m)
            &&& r.is_some() ==> segments_view(r.unwrap()@) == cut_segments(
                m,
                byte_len(raw@) as int,
                0,
            )
        }),
{
    let lower_raw = to_lowercase(raw);
    let lower_term = to_lowercase(term);
    highlight_segments(raw, lower_raw.as_str(), lower_term.as_str())
}

// ---------- a selected word ----------

/// The byte range of a word selected in `raw` between offsets `ws` and
/// `we` (in either order): each end is clamped to the line and moved back to
/// a character boundary.
pub open spec fn word_range(raw: Seq<char>, ws: int, we: int) -> (int, int) {
    let n = byte_len(raw) as int;
    let a = floor_boundary(raw, if ws < n { ws } else { n });
    let b = floor_boundary(raw, if we < n { we } else { n });
    if b < a {
        (b, a)
    } else {
        (a, b)
    }
}

/// Splits `raw` into the text before the selected word, the word and the
/// text after it.
pub fn split_at_word(raw: &str, ws: usize, we: usize) -> (r: (String, String, String))
    ensures
        r.0@ + r.1@ + r.2@ == raw@,
        byte_len(r.0@) == word_range(raw@, ws as int, we as int).0,
        byte_len(r.0@ + r.1@) == word_range(raw@, ws as int, we as int).1,
{
    let chars = collect_chars(raw);
    let n = str_byte_len(raw);
    let a = floor_char_boundary(&chars, if ws < n { ws } else { n });
    let b = floor_char_boundary(&chars, if we < n { we } else { n });
    let (lo, hi) = if b < a {
        (b, a)
    } else {
        (a, b)
    };
    let i = char_index(&chars, lo);
    let j = char_index(&chars, hi);
    proof {
        if j < i {
            lemma_byte_pos_strict(chars@, j as int, i as int);
        }
        lemma_byte_pos_take(chars@, i as int, i as int);
        lemma_byte_pos_take(chars@, j as int, j as int);
        lemma_byte_pos_end(chars@.take(i as int));
        lemma_byte_pos_end(chars@.take(j as int));
    }
    let before = slice_chars(&chars, 0, i);
    let word = slice_chars(&chars, i, j);
    let after = slice_chars(&chars, j, chars.len());
    assert(before@ + word@ + after@ =~= raw@);
    assert(before@ =~= chars@.take(i as int));
    assert(before@ + word@ =~= chars@.take(j as int));
    (string_from_chars(&before), string_from_chars(&word), string_from_chars(&after))
}

// ---------- how a log line is drawn ----------

/// The ways a shown log line is drawn.
#[derive(Clone, Copy, Debug, PartialEq, Eq, Structural)]
pub enum LineLook {
    /// Its wrapped rows as they are.
    Plain,
    /// A search hit: the rows of its raw text, in the style of the first
    /// piece that `search_highlight` gives (reversed when selected).
    SearchHit,
    /// A search hit that has no raw text (the output still streaming):
    /// nothing is drawn for it.
    Hidden,
    /// A word selected in it: the rows of its raw text, split around the word.
    WordSelected,
    /// Its wrapped rows, reversed when selected; the first row of a folded
    /// block's title is led by the fold note.
    Marked { reversed: bool },
}

pub open spec fn line_look_spec(
    term_empty: bool,
    is_match: bool,
    selected: bool,
    has_raw: bool,
    word_selection: bool,
) -> LineLook {
    if term_empty && !selected {
        LineLook::Plain
    } else if !term_empty && is_match {
        if has_raw {
            LineLook::SearchHit
        } else {
            LineLook::Hidden
        }
    } else if word_selection && selected && has_raw {
        LineLook::WordSelected
    } else {
        LineLook::Marked { reversed: selected }
    }
}

/// How the shown line `logical` is drawn, given the search, the selected
/// lines, the selected word, and whether the line has raw text (it has
/// unless it is the output still streaming).
pub fn line_look(
    search: &SearchState,
    logical: usize,
    selection: Option<(usize, usize)>,
    word_selection: Option<(usize, usize)>,
    has_raw: bool,
) -> (r: LineLook)
    ensures
        r == line_look_spec(
            search.term@.len() == 0,
            search.matches@.contains(logical),
            selected_spec(logical, selection),
            has_raw,
            word_selection.is_some(),
        ),
{
    proof {
        crate::text::lemma_len_le_byte_len(search.term@);
    }
    let n = str_byte_len(search.term.as_str());
    let term_empty = n == 0;
    let mut is_match = false;
    let mut k: usize = 0;
    while k < search.matches.len()
        invariant
            k <= search.matches.len(),
            is_match == (exists|t: int| 0 <= t < k && search.matches@[t] == logical),
        decreases search.matches.len() - k,
    {
        if search.matches[k] == logical {
            is_match = true;
        }
        k = k + 1;
    }
    proof {
        if is_match {
            let t = choose|t: int| 0 <= t < k && search.matches@[t] == logical;
            assert(search.matches@.contains(logical));
        }
    }
    let selected = is_selected(logical, selection);
    if term_empty && !selected {
        LineLook::Plain
    } else if !term_empty && is_match {
        if has_raw {
            LineLook::SearchHit
        } else {
            LineLook::Hidden
        }
    } else if word_selection.is_some() && selected && has_raw {
        LineLook::WordSelected
    } else {
        LineLook::Marked { reversed: selected }
    }
}

} // verus!
