//! Scrolling of the log panel: which visual rows and logical lines the panel
//! shows, given where each logical line starts once wrapped.
use vstd::prelude::*;
use crate::log_view::{
    ThinkingBlock, blocks_wf, count_visible, is_message_visible, search_sorted, sorted_search,
    strictly_increasing, visible,
};

verus! {

/// Scroll state of the log panel.
pub struct LogScroll {
    /// Logical line at the top of the panel.
    pub offset: u16,
    /// Rows available for lines.
    pub height: u16,
    /// First visual row of each logical line, as last drawn.
    pub visual_start: Vec<usize>,
    /// First visual row of each logical line, then the total (cached wrap result).
    pub visual_start_cache: Vec<usize>,
    /// Width the cache was wrapped at.
    pub visual_cache_width: u16,
    /// Number of messages when the cache was built.
    pub visual_cache_ver: usize,
    /// Number of messages when the shown-line index was built.
    pub visible_indices_ver: usize,
    /// Logical number of each physical line (`None` when folded away).
    pub phys_to_logical_cache: Vec<Option<usize>>,
}

impl LogScroll {
    pub fn new() -> (s: LogScroll)
        ensures
            s.offset == 0,
            s.height == 10,
            s.visual_start@.len() == 0,
            s.visual_start_cache@.len() == 0,
            s.visual_cache_width == 0,
            s.visual_cache_ver == 0,
            s.visible_indices_ver == 0,
            s.phys_to_logical_cache@.len() == 0,
    {
        LogScroll {
            offset: 0,
            height: 10,
            visual_start: Vec::new(),
            visual_start_cache: Vec::new(),
            visual_cache_width: 0,
            visual_cache_ver: 0,
            visible_indices_ver: 0,
            phys_to_logical_cache: Vec::new(),
        }
    }
}

/// What the log panel shows.
pub struct Viewport {
    /// The scroll offset, clamped so the last page stays full.
    pub offset: u16,
    /// Total number of visual rows.
    pub total_visual: usize,
    /// First visual row shown.
    pub visual_scroll: usize,
    /// Visual row after the last one shown.
    pub end_visual: usize,
    /// First logical line (partly) shown.
    pub logical_start: usize,
    /// Logical line after the last one (partly) shown.
    pub logical_end: usize,
}

pub open spec fn min_usize(a: usize, b: usize) -> usize {
    if a < b {
        a
    } else {
        b
    }
}

pub open spec fn sat_sub(a: usize, b: usize) -> usize {
    if a >= b {
        (a - b) as usize
    } else {
        0
    }
}

/// Logical line whose rows hold visual row `x`.
pub open spec fn line_at_row(vs: Seq<usize>, x: usize) -> usize {
    match sorted_search(vs, x) {
        Ok(i) => i,
        Err(i) => sat_sub(i, 1),
    }
}

/// Viewport for the line start rows `vs` (ending with the total), `total_logical`
/// lines, `h` rows and a requested scroll offset.
pub open spec fn clip(vs: Seq<usize>, total_logical: usize, h: usize, offset: u16) -> Viewport {
    let total_visual = if vs.len() > 0 {
        vs.last()
    } else {
        0
    };
    let effective_max_logical = if total_visual <= h {
        0
    } else {
        line_at_row(vs, (total_visual - h) as usize)
    };
    let max_scroll = effective_max_logical as u16;
    let off = if offset > max_scroll {
        max_scroll
    } else {
        offset
    };
    let logical_scroll = off as usize;
    let max_visual_scroll = sat_sub(total_visual, h);
    let vscroll0 = if logical_scroll < vs.len() {
        min_usize(vs[logical_scroll as int], max_visual_scroll)
    } else {
        max_visual_scroll
    };
    let end0 = min_usize((vscroll0 + h) as usize, total_visual);
    let vscroll = if end0 >= total_visual && total_visual > h {
        max_visual_scroll
    } else {
        vscroll0
    };
    let end_visual = min_usize((vscroll + h) as usize, total_visual);
    Viewport {
        offset: off,
        total_visual,
        visual_scroll: vscroll,
        end_visual,
        logical_start: line_at_row(vs, vscroll),
        logical_end: match sorted_search(vs, end_visual) {
            Ok(i) => i,
            Err(i) => min_usize(i, total_logical),
        },
    }
}

/// Clamps the scroll offset and computes the rows and lines the panel shows.
pub fn clip_viewport(vs: &Vec<usize>, total_logical: usize, h: usize, offset: u16) -> (v: Viewport)
    requires
        strictly_increasing(vs@),
    ensures
        v == clip(vs@, total_logical, h, offset),
        v.visual_scroll <= v.end_visual <= v.total_visual,
        v.end_visual - v.visual_scroll <= h,
        v.total_visual > h ==> v.end_visual == v.visual_scroll + h,
        v.offset <= offset,
{
    let total_visual = if vs.len() > 0 {
        vs[vs.len() - 1]
    } else {
        0
    };
    let effective_max_logical = if total_visual <= h {
        0
    } else {
        match search_sorted(vs, total_visual - h) {
            Ok(i) => i,
            Err(i) => if i >= 1 {
                i - 1
            } else {
                0
            },
        }
    };
    let max_scroll = effective_max_logical as u16;
    let off = if offset > max_scroll {
        max_scroll
    } else {
        offset
    };
    let logical_scroll = off as usize;
    let max_visual_scroll = if total_visual >= h {
        total_visual - h
    } else {
        0
    };
    let vscroll0 = if logical_scroll < vs.len() {
        if vs[logical_scroll] < max_visual_scroll {
            vs[logical_scroll]
        } else {
            max_visual_scroll
        }
    } else {
        max_visual_scroll
    };
    let end0 = if vscroll0 + h < total_visual {
        vscroll0 + h
    } else {
        total_visual
    };
    let vscroll = if end0 >= total_visual && total_visual > h {
        max_visual_scroll
    } else {
        vscroll0
    };
    let end_visual = if vscroll + h < total_visual {
        vscroll + h
    } else {
        total_visual
    };
    let logical_start = match search_sorted(vs, vscroll) {
        Ok(i) => i,
        Err(i) => if i >= 1 {
            i - 1
        } else {
            0
        },
    };
    let logical_end = match search_sorted(vs, end_visual) {
        Ok(i) => i,
        Err(i) => if i < total_logical {
            i
        } else {
            total_logical
        },
    };
    Viewport {
        offset: off,
        total_visual,
        visual_scroll: vscroll,
        end_visual,
        logical_start,
        logical_end,
    }
}

// ---------- shown-line index ----------

/// The physical indices of the shown lines among `0..n`, in order.
pub open spec fn shown_indices(blocks: Seq<ThinkingBlock>, n: int) -> Seq<usize>
    decreases n,
{
    if n <= 0 {
        Seq::empty()
    } else if visible(blocks, n - 1) {
        shown_indices(blocks, n - 1).push((n - 1) as usize)
    } else {
        shown_indices(blocks, n - 1)
    }
}

/// The logical number of each physical line among `0..n`, `None` for a
/// folded one.
pub open spec fn logical_numbers(blocks: Seq<ThinkingBlock>, n: int) -> Seq<Option<usize>> {
    Seq::new(
        n as nat,
        |p: int|
            if visible(blocks, p) {
                Some(count_visible(blocks, p) as usize)
            } else {
                None
            },
    )
}

proof fn lemma_shown_indices_len(blocks: Seq<ThinkingBlock>, n: int)
    requires
        n >= 0,
    ensures
        shown_indices(blocks, n).len() == count_visible(blocks, n),
    decreases n,
{
    if n > 0 {
        lemma_shown_indices_len(blocks, n - 1);
    }
}

/// Builds the shown-line index of lines `0..n`: the physical index of each
/// shown line, and the logical number of each physical line.
pub fn build_visible_index(blocks: &Vec<ThinkingBlock>, n: usize) -> (r: (Vec<usize>, Vec<Option<usize>>))
    requires
        blocks_wf(blocks@),
    ensures
        r.0@ == shown_indices(blocks@, n as int),
        r.1@ == logical_numbers(blocks@, n as int),
        r.0@.len() == count_visible(blocks@, n as int),
{
    let mut shown: Vec<usize> = Vec::new();
    let mut numbers: Vec<Option<usize>> = Vec::new();
    let mut p: usize = 0;
    while p < n
        invariant
            p <= n,
            blocks_wf(blocks@),
            shown@ == shown_indices(blocks@, p as int),
            numbers@ =~= logical_numbers(blocks@, p as int),
            shown@.len() == count_visible(blocks@, p as int),
            shown@.len() <= p,
        decreases n - p,
    {
        proof {
            lemma_shown_indices_len(blocks@, p as int);
        }
        if is_message_visible(blocks, p) {
            numbers.push(Some(shown.len()));
            shown.push(p);
        } else {
            numbers.push(None);
        }
        proof {
            assert(numbers@ =~= logical_numbers(blocks@, p + 1));
        }
        p = p + 1;
    }
    (shown, numbers)
}

// ---------- row starts ----------

/// The first row of each line once the lines take `counts` rows each,
/// followed by the total.
pub open spec fn row_starts(counts: Seq<usize>) -> Seq<usize>
    decreases counts.len(),
{
    if counts.len() == 0 {
        seq![0usize]
    } else {
        let r = row_starts(counts.drop_last());
        r.push((r.last() + counts.last()) as usize)
    }
}

/// Total rows of `counts`.
pub open spec fn rows_total(counts: Seq<usize>) -> int
    decreases counts.len(),
{
    if counts.len() == 0 {
        0
    } else {
        rows_total(counts.drop_last()) + counts.last()
    }
}

proof fn lemma_rows_total_mono(counts: Seq<usize>, i: int)
    requires
        0 <= i <= counts.len(),
    ensures
        rows_total(counts.take(i)) <= rows_total(counts),
    decreases counts.len() - i,
{
    if i < counts.len() {
        lemma_rows_total_mono(counts, i + 1);
        assert(counts.take(i + 1).drop_last() =~= counts.take(i));
    } else {
        assert(counts.take(i) =~= counts);
    }
}

proof fn lemma_row_starts_shape(counts: Seq<usize>)
    requires
        rows_total(counts) <= usize::MAX,
    ensures
        row_starts(counts).len() == counts.len() + 1,
        row_starts(counts).last() == rows_total(counts),
        forall|i: int| 0 <= i < counts.len() ==> #[trigger] row_starts(counts)[i + 1] == row_starts(counts)[i]
            + counts[i],
    decreases counts.len(),
{
    if counts.len() > 0 {
        let c = counts.drop_last();
        assert(rows_total(c) <= rows_total(counts));
        lemma_row_starts_shape(c);
        let r = row_starts(c);
        assert forall|i: int| 0 <= i < counts.len() implies #[trigger] row_starts(counts)[i + 1]
            == row_starts(counts)[i] + counts[i] by {
            if i < counts.len() - 1 {
                assert(row_starts(counts)[i + 1] == r[i + 1]);
                assert(row_starts(counts)[i] == r[i]);
                assert(counts[i] == c[i]);
            }
        }
    }
}

/// Lines that take at least one row each start on strictly increasing
/// rows, as the panel's row lookups require.
pub proof fn law_row_starts_increasing(counts: Seq<usize>)
    requires
        rows_total(counts) <= usize::MAX,
        forall|i: int| 0 <= i < counts.len() ==> #[trigger] counts[i] >= 1,
    ensures
        strictly_increasing(row_starts(counts)),
{
    lemma_row_starts_shape(counts);
    let r = row_starts(counts);
    assert forall|k: int| 0 <= k < counts.len() implies r[k + 1] == r[k] + #[trigger] counts[k] by {
        assert(row_starts(counts)[k + 1] == row_starts(counts)[k] + counts[k]);
    }
    assert forall|i: int, j: int| 0 <= i < j < r.len() implies r[i] < r[j] by {
        lemma_row_starts_step(counts, r, i, j);
    }
}

proof fn lemma_row_starts_step(counts: Seq<usize>, r: Seq<usize>, i: int, j: int)
    requires
        r.len() == counts.len() + 1,
        forall|k: int| 0 <= k < counts.len() ==> r[k + 1] == r[k] + #[trigger] counts[k],
        forall|k: int| 0 <= k < counts.len() ==> #[trigger] counts[k] >= 1,
        0 <= i < j < r.len(),
    ensures
        r[i] < r[j],
    decreases j - i,
{
    assert(r[j] == r[j - 1] + counts[j - 1]);
    if i < j - 1 {
        lemma_row_starts_step(counts, r, i, j - 1);
    }
}

/// The first row of each line and the total, given each line's row count.
pub fn build_row_starts(counts: &Vec<usize>) -> (r: Vec<usize>)
    requires
        rows_total(counts@) <= usize::MAX,
    ensures
        r@ == row_starts(counts@),
{
    let mut out: Vec<usize> = Vec::new();
    out.push(0);
    let mut acc: usize = 0;
    let mut i: usize = 0;
    assert(counts@.take(0) =~= Seq::<usize>::empty());
    while i < counts.len()
        invariant
            i <= counts@.len(),
            rows_total(counts@) <= usize::MAX,
            out@ == row_starts(counts@.take(i as int)),
            acc == rows_total(counts@.take(i as int)),
            out@.last() == acc,
        decreases counts.len() - i,
    {
        proof {
            lemma_rows_total_mono(counts@, i + 1);
            assert(counts@.take(i + 1).drop_last() =~= counts@.take(i as int));
        }
        acc = acc + counts[i];
        out.push(acc);
        i = i + 1;
    }
    assert(counts@.take(counts@.len() as int) =~= counts@);
    out
}

// ---------- per-line window ----------

/// The rows of a line (rows `start..end`) that fall in the shown rows
/// `top..bottom`: the offset of the first shown row within the line and
/// how many are shown, or `None` when none is.
pub open spec fn line_window_spec(start: usize, end: usize, top: usize, bottom: usize) -> Option<(usize, usize)> {
    if end <= top || start >= bottom {
        None
    } else {
        let first = if top > start { top } else { start };
        let last = if bottom < end { bottom } else { end };
        if last <= first || first < start {
            None
        } else {
            Some(((first - start) as usize, (last - first) as usize))
        }
    }
}

pub fn line_window(start: usize, end: usize, top: usize, bottom: usize) -> (r: Option<(usize, usize)>)
    ensures
        r == line_window_spec(start, end, top, bottom),
{
    if end <= top || start >= bottom {
        return None;
    }
    let first = if top > start {
        top
    } else {
        start
    };
    let last = if bottom < end {
        bottom
    } else {
        end
    };
    if last <= first || first < start {
        None
    } else {
        Some((first - start, last - first))
    }
}

/// Whether the shown line `logical` lies in the mouse selection.
pub open spec fn selected_spec(logical: usize, sel: Option<(usize, usize)>) -> bool {
    match sel {
        Some((s, e)) => (if s <= e { s } else { e }) <= logical && logical <= (if s <= e { e } else { s }),
        None => false,
    }
}

pub fn is_selected(logical: usize, sel: Option<(usize, usize)>) -> (r: bool)
    ensures
        r == selected_spec(logical, sel),
{
    match sel {
        Some((s, e)) => {
            let lo = if s <= e {
                s
            } else {
                e
            };
            let hi = if s <= e {
                e
            } else {
                s
            };
            lo <= logical && logical <= hi
        },
        None => false,
    }
}

/// Position of the scrollbar's thumb: the first shown row scaled from the
/// scrollable range to the whole, kept on the last row.
pub open spec fn scrollbar_spec(total: usize, h: usize, top: usize) -> usize {
    let pos: int = if total > h {
        (top as int * (total - 1)) / ((total - h) as int)
    } else {
        0
    };
    let last: int = if total >= 1 { total - 1 } else { 0 };
    (if pos < last { pos } else { last }) as usize
}

pub fn scrollbar_position(total: usize, h: usize, top: usize) -> (r: usize)
    requires
        top as int * (total as int) <= u64::MAX,
    ensures
        r == scrollbar_spec(total, h, top),
{
    let pos: u64 = if total > h {
        let range = (total - h) as u64;
        proof {
            assert((top as int) * ((total - 1) as int) <= (top as int) * (total as int)) by (nonlinear_arith)
                requires
                    total >= 1,
            ;
        }
        let prod = (top as u64) * ((total - 1) as u64);
        prod / range
    } else {
        0
    };
    let last: u64 = if total >= 1 {
        (total - 1) as u64
    } else {
        0
    };
    let r = if pos < last {
        pos
    } else {
        last
    };
    r as usize
}

} // verus!
