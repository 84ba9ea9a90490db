//! Which transcript lines are shown, how shown lines are numbered, search
//! over them, and lookups by shown-line number.
//!
//! The transcript is a list of raw message lines. Finished thinking blocks
//! fold their content: only a window of three lines of each block is shown.
//! "Physical" indices count all lines; "logical" indices count shown lines.
use vstd::prelude::*;
use crate::strutil::{
    contains, lowercase, str_contains, to_lowercase, trim, trim_chars, trim_start, trim_start_chars,
    starts_with, chars_start_with, chars_eq, join, join_strings,
};
use crate::strutil;
use crate::text::collect_chars;

verus! {

/// A finished thinking block: its title line, its last content line, the
/// first shown content line, and its content without the line prefix.
pub struct ThinkingBlock {
    pub title_idx: usize,
    pub end_idx: usize,
    pub scroll_offset: usize,
    pub cached_preview: Vec<String>,
}

/// Search term, logical indices of the matching lines, and the highlighted match.
pub struct SearchState {
    pub term: String,
    pub matches: Vec<usize>,
    pub current_match: usize,
}

impl SearchState {
    pub fn new() -> (s: SearchState)
        ensures
            s.term@ == Seq::<char>::empty(),
            s.matches@ == Seq::<usize>::empty(),
            s.current_match == 0,
    {
        SearchState { term: String::new(), matches: Vec::new(), current_match: 0 }
    }

    /// The highlighted match indexes the matches whenever there are any.
    pub open spec fn wf(&self) -> bool {
        self.matches.len() > 0 ==> self.current_match < self.matches.len()
    }
}

/// Blocks whose window arithmetic cannot overflow.
pub open spec fn blocks_wf(blocks: Seq<ThinkingBlock>) -> bool {
    forall|i: int| 0 <= i < blocks.len() ==> blocks[i].scroll_offset <= usize::MAX - 3
}

/// Visibility decided by the first block, from index `b` on, whose content holds `idx`.
pub open spec fn visible_from(blocks: Seq<ThinkingBlock>, b: int, idx: int) -> bool
    decreases blocks.len() - b,
{
    if b < 0 || b >= blocks.len() {
        true
    } else {
        let blk = blocks[b];
        if idx > blk.title_idx && idx <= blk.end_idx {
            let total = blk.end_idx - blk.title_idx;
            let vs = if blk.scroll_offset < total - 1 {
                blk.scroll_offset as int
            } else {
                total - 1
            };
            let ve = if blk.scroll_offset + 3 < total {
                blk.scroll_offset + 3
            } else {
                total
            };
            let rel = idx - (blk.title_idx + 1);
            vs <= rel && rel < ve
        } else {
            visible_from(blocks, b + 1, idx)
        }
    }
}

/// Whether line `idx` is shown.
pub open spec fn visible(blocks: Seq<ThinkingBlock>, idx: int) -> bool {
    visible_from(blocks, 0, idx)
}

/// Number of shown lines among `0..p`.
pub open spec fn count_visible(blocks: Seq<ThinkingBlock>, p: int) -> nat
    decreases p,
{
    if p <= 0 {
        0
    } else {
        count_visible(blocks, p - 1) + if visible(blocks, p - 1) {
            1nat
        } else {
            0nat
        }
    }
}

pub proof fn lemma_count_visible_mono(blocks: Seq<ThinkingBlock>, p: int, q: int)
    requires
        p <= q,
    ensures
        count_visible(blocks, p) <= count_visible(blocks, q),
    decreases q - p,
{
    if p < q {
        lemma_count_visible_mono(blocks, p, q - 1);
    }
}

pub proof fn lemma_count_visible_le(blocks: Seq<ThinkingBlock>, p: int)
    requires
        p >= 0,
    ensures
        count_visible(blocks, p) <= p,
    decreases p,
{
    if p > 0 {
        lemma_count_visible_le(blocks, p - 1);
    }
}

/// Whether line `idx` is shown.
pub fn is_message_visible(blocks: &Vec<ThinkingBlock>, idx: usize) -> (r: bool)
    requires
        blocks_wf(blocks@),
    ensures
        r == visible(blocks@, idx as int),
{
    let mut b: usize = 0;
    while b < blocks.len()
        invariant
            b <= blocks.len(),
            blocks_wf(blocks@),
            visible_from(blocks@, b as int, idx as int) == visible(blocks@, idx as int),
        decreases blocks.len() - b,
    {
        let blk = &blocks[b];
        if idx > blk.title_idx && idx <= blk.end_idx {
            let total = blk.end_idx - blk.title_idx;
            let vs = if blk.scroll_offset < total - 1 {
                blk.scroll_offset
            } else {
                total - 1
            };
            let ve = if blk.scroll_offset + 3 < total {
                blk.scroll_offset + 3
            } else {
                total
            };
            let rel = idx - (blk.title_idx + 1);
            return vs <= rel && rel < ve;
        }
        b = b + 1;
    }
    true
}

/// Physical index of the shown line numbered `logical` among lines `0..n`.
pub fn visible_message_index(blocks: &Vec<ThinkingBlock>, n: usize, logical_idx: usize) -> (r:
    Option<usize>)
    requires
        blocks_wf(blocks@),
    ensures
        match r {
            Some(p) => p < n && visible(blocks@, p as int) && count_visible(blocks@, p as int)
                == logical_idx,
            None => count_visible(blocks@, n as int) <= logical_idx,
        },
{
    let mut count: usize = 0;
    let mut idx: usize = 0;
    while idx < n
        invariant
            idx <= n,
            blocks_wf(blocks@),
            count == count_visible(blocks@, idx as int),
            count <= logical_idx,
        decreases n - idx,
    {
        proof {
            lemma_count_visible_le(blocks@, idx as int);
        }
        if is_message_visible(blocks, idx) {
            if count == logical_idx {
                return Some(idx);
            }
            count = count + 1;
        }
        idx = idx + 1;
    }
    None
}

/// Number of shown lines among `0..n`, plus one for a pending streamed line.
pub fn total_log_lines(blocks: &Vec<ThinkingBlock>, n: usize, stream_pending: bool) -> (r: usize)
    requires
        blocks_wf(blocks@),
        n < usize::MAX,
    ensures
        r == count_visible(blocks@, n as int) + if stream_pending {
            1int
        } else {
            0int
        },
{
    let mut count: usize = 0;
    let mut idx: usize = 0;
    while idx < n
        invariant
            idx <= n,
            blocks_wf(blocks@),
            count == count_visible(blocks@, idx as int),
            count <= idx,
        decreases n - idx,
    {
        proof {
            lemma_count_visible_le(blocks@, idx as int);
        }
        if is_message_visible(blocks, idx) {
            count = count + 1;
        }
        idx = idx + 1;
    }
    proof {
        lemma_count_visible_le(blocks@, n as int);
    }
    if stream_pending {
        count + 1
    } else {
        count
    }
}

// ---------- search ----------

pub open spec fn raw_view(raw: Seq<String>) -> Seq<Seq<char>> {
    raw.map_values(|s: String| s@)
}

/// Logical indices of the shown lines among `0..p` containing `needle` (lower-cased).
pub open spec fn matches_upto(
    raw: Seq<Seq<char>>,
    blocks: Seq<ThinkingBlock>,
    needle: Seq<char>,
    p: int,
) -> Seq<usize>
    decreases p,
{
    if p <= 0 {
        Seq::empty()
    } else {
        let prev = matches_upto(raw, blocks, needle, p - 1);
        if visible(blocks, p - 1) && contains(lowercase(raw[p - 1]), needle) {
            prev.push(count_visible(blocks, p - 1) as usize)
        } else {
            prev
        }
    }
}

/// All search matches: matching shown lines, then the pending streamed line if it matches.
pub open spec fn search_matches(
    raw: Seq<Seq<char>>,
    blocks: Seq<ThinkingBlock>,
    term: Seq<char>,
    stream: Seq<char>,
) -> Seq<usize> {
    let needle = lowercase(term);
    let shown = matches_upto(raw, blocks, needle, raw.len() as int);
    if stream.len() > 0 && contains(lowercase(stream), needle) {
        shown.push(count_visible(blocks, raw.len() as int) as usize)
    } else {
        shown
    }
}

/// Scroll offset that puts line `target` half a screen below the top:
/// the line number truncated to 16 bits, less half the height, at least 0.
pub open spec fn centered_offset(target: usize, height: u16) -> u16 {
    let t = target as u16;
    if t >= height / 2 {
        (t - height / 2) as u16
    } else {
        0
    }
}

/// Recomputes the search matches; when there are any, highlights the first
/// and scrolls to it.
pub fn update_search_matches(
    raw: &Vec<String>,
    blocks: &Vec<ThinkingBlock>,
    stream_buffer: &String,
    search: &mut SearchState,
    offset: &mut u16,
    height: u16,
)
    requires
        blocks_wf(blocks@),
    ensures
        final(search).matches@ == search_matches(
            raw_view(raw@),
            blocks@,
            old(search).term@,
            stream_buffer@,
        ),
        final(search).term == old(search).term,
        final(search).wf(),
        final(search).matches.len() > 0 ==> final(search).current_match == 0 && *final(offset)
            == centered_offset(final(search).matches[0], height),
        final(search).matches.len() == 0 ==> final(search).current_match == old(
            search,
        ).current_match && *final(offset) == *old(offset),
{
    let ghost rv = raw_view(raw@);
    let lower_term = to_lowercase(search.term.as_str());
    let needle = collect_chars(lower_term.as_str());
    let mut found: Vec<usize> = Vec::new();
    let mut logical: usize = 0;
    let mut idx: usize = 0;
    while idx < raw.len()
        invariant
            idx <= raw.len(),
            blocks_wf(blocks@),
            rv == raw_view(raw@),
            needle@ == lowercase(search.term@),
            logical == count_visible(blocks@, idx as int),
            logical <= idx,
            found@ == matches_upto(rv, blocks@, needle@, idx as int),
        decreases raw.len() - idx,
    {
        proof {
            lemma_count_visible_le(blocks@, idx as int);
        }
        if is_message_visible(blocks, idx) {
            let lower = to_lowercase(raw[idx].as_str());
            let hay = collect_chars(lower.as_str());
            assert(rv[idx as int] == raw@[idx as int]@);
            if strutil::contains_chars(&hay, &needle) {
                found.push(logical);
            }
            logical = logical + 1;
        }
        idx = idx + 1;
    }
    let n = stream_buffer.as_str().is_empty();
    if !n {
        let lower = to_lowercase(stream_buffer.as_str());
        let hay = collect_chars(lower.as_str());
        if strutil::contains_chars(&hay, &needle) {
            found.push(logical);
        }
    }
    search.matches = found;
    if search.matches.len() > 0 {
        search.current_match = 0;
        let first = search.matches[0];
        *offset = centered(first, height);
    }
}

/// `centered_offset` computed.
pub fn centered(target: usize, height: u16) -> (r: u16)
    ensures
        r == centered_offset(target, height),
{
    let t = target as u16;
    let half = height / 2;
    if t >= half {
        t - half
    } else {
        0
    }
}

/// Highlights the next match (wrapping around) and scrolls to it.
pub fn jump_to_next_match(search: &mut SearchState, offset: &mut u16, height: u16)
    requires
        old(search).wf(),
    ensures
        final(search).wf(),
        final(search).term == old(search).term,
        final(search).matches == old(search).matches,
        old(search).matches.len() == 0 ==> final(search).current_match == old(
            search,
        ).current_match && *final(offset) == *old(offset),
        old(search).matches.len() > 0 ==> final(search).current_match == (old(
            search,
        ).current_match + 1) % (old(search).matches.len() as int) && *final(offset)
            == centered_offset(old(search).matches[final(search).current_match as int], height),
{
    if search.matches.len() == 0 {
        return ;
    }
    search.current_match = (search.current_match + 1) % search.matches.len();
    let target = search.matches[search.current_match];
    *offset = centered(target, height);
}

/// Highlights the previous match (wrapping around) and scrolls to it.
pub fn jump_to_prev_match(search: &mut SearchState, offset: &mut u16, height: u16)
    requires
        old(search).wf(),
    ensures
        final(search).wf(),
        final(search).term == old(search).term,
        final(search).matches == old(search).matches,
        old(search).matches.len() == 0 ==> final(search).current_match == old(
            search,
        ).current_match && *final(offset) == *old(offset),
        old(search).matches.len() > 0 ==> final(search).current_match == (if old(
            search,
        ).current_match == 0 {
            old(search).matches.len() - 1
        } else {
            old(search).current_match - 1
        }) && *final(offset) == centered_offset(
            old(search).matches[final(search).current_match as int],
            height,
        ),
{
    if search.matches.len() == 0 {
        return ;
    }
    search.current_match = if search.current_match == 0 {
        search.matches.len() - 1
    } else {
        search.current_match - 1
    };
    let target = search.matches[search.current_match];
    *offset = centered(target, height);
}

/// The matches found among the first `p` lines: each names, by its position
/// among the shown lines, a shown line before `p` whose lower-cased text
/// holds the needle; they rise strictly and stay below the number of shown
/// lines before `p`; and every such line is among them.
proof fn lemma_matches_upto(raw: Seq<Seq<char>>, blocks: Seq<ThinkingBlock>, needle: Seq<char>, p: int)
    requires
        0 <= p <= raw.len(),
        raw.len() <= usize::MAX,
    ensures
        ({
            let ms = matches_upto(raw, blocks, needle, p);
            &&& forall|i: int| 0 <= i < ms.len() ==> (ms[i] as int) < count_visible(blocks, p)
            &&& forall|i: int| 0 <= i < ms.len() ==> (#[trigger] visible_message_index_spec(
                blocks,
                raw.len() as int,
                ms[i] as int,
            ) matches Some(q) && 0 <= q < p && contains(lowercase(raw[q]), needle))
            &&& forall|i: int, j: int| 0 <= i < j < ms.len() ==> ms[i] < ms[j]
            &&& forall|q: int|
                0 <= q < p && visible(blocks, q) && contains(lowercase(raw[q]), needle) ==> ms.contains(
                    #[trigger] count_visible(blocks, q) as usize,
                )
        }),
    decreases p,
{
    if p > 0 {
        lemma_matches_upto(raw, blocks, needle, p - 1);
        lemma_count_visible_le(blocks, p - 1);
        let prev = matches_upto(raw, blocks, needle, p - 1);
        let ms = matches_upto(raw, blocks, needle, p);
        let c = count_visible(blocks, p - 1);
        if visible(blocks, p - 1) && contains(lowercase(raw[p - 1]), needle) {
            assert(ms == prev.push(c as usize));
            lemma_visible_message_index_unique(blocks, raw.len() as int, c as int);
            assert forall|i: int| 0 <= i < ms.len() implies (#[trigger] visible_message_index_spec(
                blocks,
                raw.len() as int,
                ms[i] as int,
            ) matches Some(q) && 0 <= q < p && contains(lowercase(raw[q]), needle)) by {
                if i < prev.len() {
                    assert(ms[i] == prev[i]);
                    assert(visible_message_index_spec(blocks, raw.len() as int, prev[i] as int) matches Some(
                        q,
                    ) && 0 <= q < p - 1 && contains(lowercase(raw[q]), needle));
                } else {
                    assert(ms[i] as int == c);
                }
            }
            assert forall|q: int|
                0 <= q < p && visible(blocks, q) && contains(lowercase(raw[q]), needle) implies ms.contains(
                #[trigger] count_visible(blocks, q) as usize,
            ) by {
                if q < p - 1 {
                    assert(prev.contains(count_visible(blocks, q) as usize));
                    let t = choose|t: int| 0 <= t < prev.len() && prev[t] == count_visible(blocks, q) as usize;
                    assert(ms[t] == prev[t]);
                } else {
                    assert(ms[prev.len() as int] == c as usize);
                }
            }
        } else {
            assert(ms == prev);
            lemma_count_visible_mono(blocks, p - 1, p);
            assert forall|i: int| 0 <= i < ms.len() implies (#[trigger] visible_message_index_spec(
                blocks,
                raw.len() as int,
                ms[i] as int,
            ) matches Some(q) && 0 <= q < p && contains(lowercase(raw[q]), needle)) by {
                assert(visible_message_index_spec(blocks, raw.len() as int, prev[i] as int) matches Some(q)
                    && 0 <= q < p - 1 && contains(lowercase(raw[q]), needle));
            }
        }
    }
}

/// Search matches are positions among the shown lines, not among all lines:
/// each match is the logical index of a shown line whose lower-cased text
/// holds the lower-cased term (or, one past the last shown line, of the
/// output still streaming, when it holds the term); they rise strictly; and
/// every shown line holding the term is matched.
pub proof fn law_search_matches_are_shown_lines(
    raw: Seq<Seq<char>>,
    blocks: Seq<ThinkingBlock>,
    term: Seq<char>,
    stream: Seq<char>,
)
    requires
        raw.len() < usize::MAX,
    ensures
        ({
            let ms = search_matches(raw, blocks, term, stream);
            let needle = lowercase(term);
            let n = raw.len() as int;
            &&& forall|i: int| 0 <= i < ms.len() ==> match #[trigger] visible_message_index_spec(
                blocks,
                n,
                ms[i] as int,
            ) {
                Some(q) => contains(lowercase(raw[q]), needle),
                None => ms[i] == count_visible(blocks, n) && stream.len() > 0 && contains(
                    lowercase(stream),
                    needle,
                ),
            }
            &&& forall|i: int, j: int| 0 <= i < j < ms.len() ==> ms[i] < ms[j]
            &&& forall|q: int|
                0 <= q < n && visible(blocks, q) && contains(lowercase(raw[q]), needle) ==> ms.contains(
                    #[trigger] count_visible(blocks, q) as usize,
                )
        }),
{
    let needle = lowercase(term);
    let n = raw.len() as int;
    lemma_matches_upto(raw, blocks, needle, n);
    lemma_count_visible_le(blocks, n);
    let shown = matches_upto(raw, blocks, needle, n);
    let ms = search_matches(raw, blocks, term, stream);
    if stream.len() > 0 && contains(lowercase(stream), needle) {
        let c = count_visible(blocks, n);
        assert(ms == shown.push(c as usize));
        lemma_visible_message_index_unique(blocks, n, c as int);
        assert forall|i: int| 0 <= i < ms.len() implies match #[trigger] visible_message_index_spec(
            blocks,
            n,
            ms[i] as int,
        ) {
            Some(q) => contains(lowercase(raw[q]), needle),
            None => ms[i] == count_visible(blocks, n) && stream.len() > 0 && contains(
                lowercase(stream),
                needle,
            ),
        } by {
            if i < shown.len() {
                assert(ms[i] == shown[i]);
                assert(visible_message_index_spec(blocks, n, shown[i] as int) matches Some(q) && 0 <= q < n
                    && contains(lowercase(raw[q]), needle));
            }
        }
        assert forall|q: int|
            0 <= q < n && visible(blocks, q) && contains(lowercase(raw[q]), needle) implies ms.contains(
            #[trigger] count_visible(blocks, q) as usize,
        ) by {
            assert(shown.contains(count_visible(blocks, q) as usize));
            let t = choose|t: int| 0 <= t < shown.len() && shown[t] == count_visible(blocks, q) as usize;
            assert(ms[t] == shown[t]);
        }
    } else {
        assert(ms == shown);
        assert forall|i: int| 0 <= i < ms.len() implies match #[trigger] visible_message_index_spec(
            blocks,
            n,
            ms[i] as int,
        ) {
            Some(q) => contains(lowercase(raw[q]), needle),
            None => ms[i] == count_visible(blocks, n) && stream.len() > 0 && contains(
                lowercase(stream),
                needle,
            ),
        } by {
            assert(visible_message_index_spec(blocks, n, shown[i] as int) matches Some(q) && 0 <= q < n
                && contains(lowercase(raw[q]), needle));
        }
    }
}

/// Jumping to the next match and then to the previous one highlights the
/// match that was highlighted before.
pub proof fn law_next_then_prev_match(current: int, len: int)
    requires
        0 <= current < len,
    ensures
        ({
            let next = (current + 1) % len;
            let back = if next == 0 {
                len - 1
            } else {
                next - 1
            };
            back == current
        }),
{
    if current + 1 < len {
        assert((current + 1) % len == current + 1) by (nonlinear_arith)
            requires
                0 <= current + 1 < len,
        ;
    } else {
        assert((current + 1) % len == 0) by (nonlinear_arith)
            requires
                current + 1 == len,
                len > 0,
        ;
    }
}

// ---------- code blocks ----------

pub open spec fn fence() -> Seq<char> {
    seq!['`', '`', '`']
}

/// Last index before `e` whose trimmed text is exactly a fence, or -1.
pub open spec fn last_fence_close(raw: Seq<Seq<char>>, e: int) -> int
    decreases e,
{
    if e <= 0 {
        -1
    } else if trim(raw[e - 1]) == fence() {
        e - 1
    } else {
        last_fence_close(raw, e - 1)
    }
}

/// Last index before `e` whose text, leading white space removed, starts with a fence, or -1.
pub open spec fn last_fence_open(raw: Seq<Seq<char>>, e: int) -> int
    decreases e,
{
    if e <= 0 {
        -1
    } else if starts_with(trim_start(raw[e - 1]), fence()) {
        e - 1
    } else {
        last_fence_open(raw, e - 1)
    }
}

/// Content of the last closed code block, lines joined by newlines; none
/// when there is no closed block or it is empty.
pub open spec fn last_code_block(raw: Seq<Seq<char>>) -> Option<Seq<char>> {
    let e = last_fence_close(raw, raw.len() as int);
    if e < 0 {
        None
    } else {
        let s = last_fence_open(raw, e);
        if s < 0 || s + 1 == e {
            None
        } else {
            Some(join(raw.subrange(s + 1, e), seq!['\n']))
        }
    }
}

fn fence_chars() -> (v: Vec<char>)
    ensures
        v@ == fence(),
{
    let mut v = Vec::new();
    v.push('`');
    v.push('`');
    v.push('`');
    v
}

/// Content of the last closed code block of the transcript.
pub fn extract_last_code_block(raw: &Vec<String>) -> (r: Option<String>)
    ensures
        match r {
            Some(s) => last_code_block(raw_view(raw@)) == Some(s@),
            None => last_code_block(raw_view(raw@)) is None,
        },
{
    let ghost rv = raw_view(raw@);
    let f = fence_chars();
    let mut end = raw.len();
    loop
        invariant_except_break
            end <= raw.len(),
            last_fence_close(rv, end as int) == last_fence_close(rv, raw.len() as int),
        invariant
            rv == raw_view(raw@),
            f@ == fence(),
        ensures
            end < raw.len(),
            last_fence_close(rv, raw.len() as int) == end,
        decreases end,
    {
        if end == 0 {
            return None;
        }
        end = end - 1;
        let line = collect_chars(raw[end].as_str());
        let t = trim_chars(&line);
        assert(rv[end as int] == raw@[end as int]@);
        if chars_eq(&t, &f) {
            break;
        }
    }
    let mut start = end;
    loop
        invariant_except_break
            start <= end,
            last_fence_open(rv, start as int) == last_fence_open(rv, end as int),
        invariant
            end < raw.len(),
            rv == raw_view(raw@),
            f@ == fence(),
            last_fence_close(rv, raw.len() as int) == end,
        ensures
            start < end,
            last_fence_open(rv, end as int) == start,
        decreases start,
    {
        if start == 0 {
            return None;
        }
        start = start - 1;
        let line = collect_chars(raw[start].as_str());
        let t = trim_start_chars(&line);
        assert(rv[start as int] == raw@[start as int]@);
        if chars_start_with(&t, &f) {
            break;
        }
    }
    if start + 1 == end {
        return None;
    }
    let mut content: Vec<String> = Vec::new();
    let mut i = start + 1;
    while i < end
        invariant
            start + 1 <= i <= end < raw.len(),
            rv == raw_view(raw@),
            content@.map_values(|s: String| s@) == rv.subrange(start + 1, i as int),
        decreases end - i,
    {
        let ghost before = content@;
        content.push(raw[i].clone());
        proof {
            assert(content@ =~= before.push(raw@[i as int]));
            assert(rv[i as int] == raw@[i as int]@);
            assert(content@.map_values(|s: String| s@) =~= before.map_values(|s: String| s@).push(
                raw@[i as int]@,
            ));
            assert(rv.subrange(start + 1, i + 1) =~= rv.subrange(start + 1, i as int).push(
                rv[i as int],
            ));
        }
        i = i + 1;
    }
    let nl = "\n";
    proof {
        reveal_strlit("\n");
        assert(nl@ =~= seq!['\n']);
    }
    Some(join_strings(&content, nl))
}

// ---------- word under the mouse ----------

/// Bytes that belong to a word for mouse selection: ASCII letters and digits, `_` and `-`.
pub open spec fn word_byte(b: u8) -> bool {
    (0x30 <= b <= 0x39) || (0x41 <= b <= 0x5A) || (0x61 <= b <= 0x7A) || b == 0x5F || b == 0x2D
}

pub open spec fn byte_run_start(bytes: Seq<u8>, k: int) -> int
    decreases k,
{
    if k <= 0 || k > bytes.len() || !word_byte(bytes[k - 1]) {
        k
    } else {
        byte_run_start(bytes, k - 1)
    }
}

pub open spec fn byte_run_end(bytes: Seq<u8>, k: int) -> int
    decreases bytes.len() - k,
{
    if k < 0 || k >= bytes.len() || !word_byte(bytes[k]) {
        k
    } else {
        byte_run_end(bytes, k + 1)
    }
}

/// Byte range of the word around column `col` (in characters) of `text`.
pub open spec fn word_bounds(s: Seq<char>, col: nat) -> Option<(usize, usize)> {
    let bytes = vstd::utf8::encode_utf8(s);
    let p = crate::text::byte_pos(s, if col < s.len() {
        col as int
    } else {
        s.len() as int
    }) as int;
    if p >= bytes.len() {
        None
    } else {
        let a = byte_run_start(bytes, p);
        let b = byte_run_end(bytes, p);
        if a < b {
            Some((a as usize, b as usize))
        } else {
            None
        }
    }
}

fn is_word_byte(b: u8) -> (r: bool)
    ensures
        r == word_byte(b),
{
    (0x30 <= b && b <= 0x39) || (0x41 <= b && b <= 0x5A) || (0x61 <= b && b <= 0x7A) || b == 0x5F
        || b == 0x2D
}

/// The word (letters, digits, `_`, `-`) under column `col` of shown line `logical_idx`.
pub fn find_word_bounds(
    raw: &Vec<String>,
    blocks: &Vec<ThinkingBlock>,
    logical_idx: usize,
    col: usize,
) -> (r: Option<(usize, usize)>)
    requires
        blocks_wf(blocks@),
    ensures
        match visible_message_index_spec(blocks@, raw.len() as int, logical_idx as int) {
            None => r is None,
            Some(p) => r == word_bounds(raw@[p]@, col as nat),
        },
{
    let found = visible_message_index(blocks, raw.len(), logical_idx);
    proof {
        lemma_visible_message_index_unique(blocks@, raw.len() as int, logical_idx as int);
    }
    let phys = match found {
        None => {
            return None;
        },
        Some(p) => p,
    };
    let text = raw[phys].as_str();
    let bytes = text.as_bytes();
    let chars = collect_chars(text);
    let limit = if col < chars.len() {
        col
    } else {
        chars.len()
    };
    let n = crate::text::str_byte_len(text);
    proof {
        crate::text::lemma_byte_pos_le_len(chars@, limit as int);
    }
    let p = crate::cursor::byte_offset(&chars, limit);
    if p >= bytes.len() {
        return None;
    }
    let mut start = p;
    while start > 0 && is_word_byte(bytes[start - 1])
        invariant
            start <= p < bytes@.len(),
            byte_run_start(bytes@, start as int) == byte_run_start(bytes@, p as int),
        decreases start,
    {
        start = start - 1;
    }
    let mut end = p;
    while end < bytes.len() && is_word_byte(bytes[end])
        invariant
            p <= end <= bytes@.len(),
            byte_run_end(bytes@, end as int) == byte_run_end(bytes@, p as int),
        decreases bytes.len() - end,
    {
        end = end + 1;
    }
    if start < end {
        Some((start, end))
    } else {
        None
    }
}

/// The physical index of shown line `logical` among lines `0..n`, if any.
pub open spec fn visible_message_index_spec(blocks: Seq<ThinkingBlock>, n: int, logical: int) -> Option<
    int,
> {
    if exists|p: int| 0 <= p < n && visible(blocks, p) && count_visible(blocks, p) == logical {
        Some(
            choose|p: int| 0 <= p < n && visible(blocks, p) && count_visible(blocks, p) == logical,
        )
    } else {
        None
    }
}

/// Shown lines have distinct logical numbers, so the lookup is determined.
pub proof fn lemma_visible_message_index_unique(blocks: Seq<ThinkingBlock>, n: int, logical: int)
    ensures
        forall|p: int|
            0 <= p < n && visible(blocks, p) && count_visible(blocks, p) == logical
                ==> visible_message_index_spec(blocks, n, logical) == Some(p),
        visible_message_index_spec(blocks, n, logical) is None ==> (forall|p: int|
            0 <= p < n && visible(blocks, p) ==> count_visible(blocks, p) != logical),
        (n >= 0 && count_visible(blocks, n) <= logical) ==> visible_message_index_spec(
            blocks,
            n,
            logical,
        ) is None,
{
    assert forall|p: int|
        0 <= p < n && visible(blocks, p) && count_visible(blocks, p)
            == logical implies visible_message_index_spec(blocks, n, logical) == Some(p) by {
        let q = choose|q: int|
            0 <= q < n && visible(blocks, q) && count_visible(blocks, q) == logical;
        if q < p {
            lemma_count_visible_mono(blocks, q + 1, p);
        } else if p < q {
            lemma_count_visible_mono(blocks, p + 1, q);
        }
    }
    if n >= 0 && count_visible(blocks, n) <= logical {
        assert forall|p: int| 0 <= p < n && visible(blocks, p) implies count_visible(blocks, p)
            != logical by {
            lemma_count_visible_mono(blocks, p + 1, n);
        }
    }
}

// ---------- code block around a line ----------

/// Scan of the shown lines `0..p` for code blocks: the block holding `target`
/// if found, the next logical number, and the logical number of an open fence.
pub open spec fn code_scan(
    raw: Seq<Seq<char>>,
    blocks: Seq<ThinkingBlock>,
    target: int,
    p: int,
) -> (Option<(int, int)>, int, Option<int>)
    decreases p,
{
    if p <= 0 {
        (None, 0, None)
    } else {
        let prev = code_scan(raw, blocks, target, p - 1);
        let logical = prev.1;
        if prev.0 is Some || !visible(blocks, p - 1) {
            prev
        } else {
            let t = trim(raw[p - 1]);
            if starts_with(t, fence()) {
                match prev.2 {
                    None => (None, logical + 1, Some(logical)),
                    Some(start) => if t == fence() {
                        if target >= start && target <= logical {
                            (Some((start, logical)), logical + 1, None)
                        } else {
                            (None, logical + 1, None)
                        }
                    } else {
                        (None, logical + 1, prev.2)
                    },
                }
            } else {
                (None, logical + 1, prev.2)
            }
        }
    }
}

proof fn lemma_code_scan_bounds(raw: Seq<Seq<char>>, blocks: Seq<ThinkingBlock>, target: int, p: int)
    requires
        p >= 0,
    ensures
        0 <= code_scan(raw, blocks, target, p).1 <= p,
        code_scan(raw, blocks, target, p).2 matches Some(s) ==> 0 <= s < code_scan(
            raw,
            blocks,
            target,
            p,
        ).1,
    decreases p,
{
    if p > 0 {
        lemma_code_scan_bounds(raw, blocks, target, p - 1);
    }
}

proof fn lemma_code_scan_found_persists(
    raw: Seq<Seq<char>>,
    blocks: Seq<ThinkingBlock>,
    target: int,
    p: int,
    q: int,
)
    requires
        0 <= p <= q,
        code_scan(raw, blocks, target, p).0 is Some,
    ensures
        code_scan(raw, blocks, target, q).0 == code_scan(raw, blocks, target, p).0,
    decreases q - p,
{
    if p < q {
        lemma_code_scan_found_persists(raw, blocks, target, p, q - 1);
    }
}

/// Logical range (fences included) of the code block holding shown line `target`.
pub fn find_code_block_containing_logical(
    raw: &Vec<String>,
    blocks: &Vec<ThinkingBlock>,
    target: usize,
) -> (r: Option<(usize, usize)>)
    requires
        blocks_wf(blocks@),
    ensures
        match r {
            Some((a, b)) => code_scan(raw_view(raw@), blocks@, target as int, raw.len() as int).0
                == Some((a as int, b as int)),
            None => code_scan(raw_view(raw@), blocks@, target as int, raw.len() as int).0 is None,
        },
{
    let ghost rv = raw_view(raw@);
    let f = fence_chars();
    let mut logical: usize = 0;
    let mut open: Option<usize> = None;
    let mut idx: usize = 0;
    while idx < raw.len()
        invariant
            idx <= raw.len(),
            blocks_wf(blocks@),
            rv == raw_view(raw@),
            f@ == fence(),
            code_scan(rv, blocks@, target as int, idx as int).0 is None,
            code_scan(rv, blocks@, target as int, idx as int).1 == logical,
            code_scan(rv, blocks@, target as int, idx as int).2 == match open {
                Some(s) => Some(s as int),
                None => None,
            },
        decreases raw.len() - idx,
    {
        proof {
            lemma_code_scan_bounds(rv, blocks@, target as int, idx as int);
        }
        if is_message_visible(blocks, idx) {
            let line = collect_chars(raw[idx].as_str());
            let t = trim_chars(&line);
            assert(rv[idx as int] == raw@[idx as int]@);
            if chars_start_with(&t, &f) {
                match open {
                    None => {
                        open = Some(logical);
                    },
                    Some(start) => {
                        if chars_eq(&t, &f) {
                            if target >= start && target <= logical {
                                proof {
                                    lemma_code_scan_found_persists(
                                        rv,
                                        blocks@,
                                        target as int,
                                        idx + 1,
                                        raw.len() as int,
                                    );
                                }
                                return Some((start, logical));
                            }
                            open = None;
                        }
                    },
                }
            }
            logical = logical + 1;
        }
        idx = idx + 1;
    }
    None
}

// ---------- visual rows ----------

/// Number of elements of `v` smaller than `x`.
pub open spec fn rank(v: Seq<usize>, x: usize) -> nat
    decreases v.len(),
{
    if v.len() == 0 {
        0
    } else {
        rank(v.drop_last(), x) + if v.last() < x {
            1nat
        } else {
            0nat
        }
    }
}

pub open spec fn strictly_increasing(v: Seq<usize>) -> bool {
    forall|i: int, j: int| 0 <= i < j < v.len() ==> v[i] < v[j]
}

/// Result of a binary search for `x` in the strictly increasing `v`:
/// the index holding `x`, or the index where `x` would be inserted.
pub open spec fn sorted_search(v: Seq<usize>, x: usize) -> Result<usize, usize> {
    if v.contains(x) {
        Ok(rank(v, x) as usize)
    } else {
        Err(rank(v, x) as usize)
    }
}

proof fn lemma_rank_prefix(v: Seq<usize>, x: usize, i: int)
    requires
        0 <= i <= v.len(),
        strictly_increasing(v),
    ensures
        rank(v.take(i), x) == (if i > 0 && v[i - 1] < x {
            i as nat
        } else {
            rank(v.take(i), x)
        }),
        rank(v.take(i), x) <= i,
        (forall|j: int| 0 <= j < i ==> v[j] < x) ==> rank(v.take(i), x) == i,
    decreases i,
{
    if i > 0 {
        lemma_rank_prefix(v, x, i - 1);
        assert(v.take(i).drop_last() =~= v.take(i - 1));
    }
}

proof fn lemma_rank_suffix_stops(v: Seq<usize>, x: usize, i: int)
    requires
        0 <= i <= v.len(),
        strictly_increasing(v),
        i < v.len() ==> v[i] >= x,
        forall|j: int| 0 <= j < i ==> v[j] < x,
    ensures
        rank(v, x) == i,
    decreases v.len() - i,
{
    lemma_rank_prefix(v, x, i);
    lemma_rank_take_ge(v, x, i, v.len() as int);
    assert(v.take(v.len() as int) =~= v);
}

proof fn lemma_rank_take_ge(v: Seq<usize>, x: usize, i: int, k: int)
    requires
        0 <= i <= k <= v.len(),
        strictly_increasing(v),
        i < v.len() ==> v[i] >= x,
    ensures
        rank(v.take(k), x) == rank(v.take(i), x),
    decreases k - i,
{
    if i < k {
        lemma_rank_take_ge(v, x, i, k - 1);
        assert(v.take(k).drop_last() =~= v.take(k - 1));
        assert(v[k - 1] >= x);
    }
}

/// Binary search, on a strictly increasing vector, as `slice::binary_search` answers there.
pub fn search_sorted(v: &Vec<usize>, x: usize) -> (r: Result<usize, usize>)
    requires
        strictly_increasing(v@),
    ensures
        r == sorted_search(v@, x),
{
    let mut i: usize = 0;
    while i < v.len() && v[i] < x
        invariant
            i <= v.len(),
            strictly_increasing(v@),
            forall|j: int| 0 <= j < i ==> v@[j] < x,
        decreases v.len() - i,
    {
        i = i + 1;
    }
    proof {
        lemma_rank_suffix_stops(v@, x, i as int);
    }
    if i < v.len() && v[i] == x {
        Ok(i)
    } else {
        proof {
            if v@.contains(x) {
                let j = choose|j: int| 0 <= j < v@.len() && v@[j] == x;
                if j < i {
                } else if j > i {
                }
            }
        }
        Err(i)
    }
}

/// Logical line at visual row `visual_row`, from the start rows of the logical lines.
pub open spec fn logical_from_visual_spec(visual_start: Seq<usize>, visual_row: usize) -> usize {
    if visual_start.len() == 0 {
        visual_row
    } else {
        match sorted_search(visual_start, visual_row) {
            Ok(i) => i,
            Err(i) => if i > 0 {
                (i - 1) as usize
            } else {
                0
            },
        }
    }
}

/// Maps a visual row (a clicked row) back to the logical line drawn there.
pub fn logical_from_visual(visual_start: &Vec<usize>, visual_row: usize) -> (r: usize)
    requires
        strictly_increasing(visual_start@),
    ensures
        r == logical_from_visual_spec(visual_start@, visual_row),
{
    if visual_start.len() == 0 {
        return visual_row;
    }
    match search_sorted(visual_start, visual_row) {
        Ok(i) => i,
        Err(i) => if i > 0 {
            i - 1
        } else {
            0
        },
    }
}

/// Logical number of a physical line from the cache built while rendering.
pub fn phys_to_logical_fast(cache: &Vec<Option<usize>>, phys_idx: usize) -> (r: Option<usize>)
    ensures
        r == if phys_idx < cache.len() {
            cache@[phys_idx as int]
        } else {
            None
        },
{
    if phys_idx < cache.len() {
        cache[phys_idx]
    } else {
        None
    }
}

} // verus!
