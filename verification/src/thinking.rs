//! Streamed model reasoning ("thinking"): its lines, the block that folds
//! them once the reasoning ends, and the popup that shows a whole block.
use vstd::prelude::*;
use crate::text::strings_view;
use crate::log_view::{blocks_wf, visible_from, ThinkingBlock};
use crate::stream::{complete_lines, line_remainder, split_complete_lines};
use crate::strutil::{join, join_strings, push_all, slice_chars, starts_with, trim, trim_chars};
use crate::text::{collect_chars, string_from_chars};

verus! {

/// Prefix of each reasoning line in the transcript.
pub open spec fn thinking_prefix() -> Seq<char> {
    seq!['\u{2502}', ' ']
}

/// Transcript text of a reasoning line: empty stays empty, otherwise prefixed.
pub open spec fn thinking_line(line: Seq<char>) -> Seq<char> {
    if line.len() == 0 {
        Seq::empty()
    } else {
        thinking_prefix() + line
    }
}

/// A reasoning line as cached for previews: the prefix taken off once, if present.
pub open spec fn unprefixed(line: Seq<char>) -> Seq<char> {
    if starts_with(line, thinking_prefix()) {
        line.skip(2)
    } else {
        line
    }
}

/// The popup showing a whole thinking block.
pub struct ThinkingPopup {
    pub block_idx: usize,
    pub title: String,
    pub scroll: u16,
}

/// Reasoning being streamed, the finished blocks, and the popup.
pub struct ThinkingState {
    /// Text after the last complete reasoning line.
    pub buffer: String,
    /// The title of the current block has been added.
    pub title_added: bool,
    /// Index of the blank line above the title of the open block.
    pub active_start: Option<usize>,
    /// Index of the last line of the open block.
    pub active_end: Option<usize>,
    pub blocks: Vec<ThinkingBlock>,
    pub popup: Option<ThinkingPopup>,
}

/// What a reasoning chunk adds to the transcript, in order: when `title`, a
/// blank line and the title line; then `lines`.
pub struct ThinkingChunk {
    pub title: bool,
    pub lines: Vec<String>,
}

fn prefix_chars() -> (v: Vec<char>)
    ensures
        v@ == thinking_prefix(),
{
    let mut v = Vec::new();
    v.push('\u{2502}');
    v.push(' ');
    v
}

fn thinking_line_exec(line: &Vec<char>) -> (r: String)
    ensures
        r@ == thinking_line(line@),
{
    if line.len() == 0 {
        return String::new();
    }
    let mut v = prefix_chars();
    push_all(&mut v, line);
    string_from_chars(&v)
}

impl ThinkingState {
    pub fn new() -> (s: ThinkingState)
        ensures
            s.buffer@.len() == 0,
            !s.title_added,
            s.active_start is None,
            s.active_end is None,
            s.blocks@.len() == 0,
            s.popup is None,
    {
        ThinkingState {
            buffer: String::new(),
            title_added: false,
            active_start: None,
            active_end: None,
            blocks: Vec::new(),
            popup: None,
        }
    }

    /// Appends a reasoning chunk; the transcript holds `msg_len` lines before
    /// the lines returned are appended.
    pub fn push_chunk(&mut self, text: &str, msg_len: usize) -> (out: ThinkingChunk)
        requires
            msg_len + 2 + old(self).buffer@.len() + text@.len() <= usize::MAX,
        ensures
            ({
                let s = old(self).buffer@ + text@;
                let lines = complete_lines(s);
                let added = msg_len + (if out.title {
                    2int
                } else {
                    0int
                }) + lines.len();
                &&& out.title == !old(self).title_added
                &&& strings_view(out.lines@) == lines.map_values(|l: Seq<char>| thinking_line(l))
                &&& final(self).buffer@ == line_remainder(s)
                &&& final(self).title_added
                &&& final(self).active_start == if out.title {
                    Some(msg_len)
                } else {
                    old(self).active_start
                }
                &&& final(self).active_end == if lines.len() > 0 {
                    Some((added - 1) as usize)
                } else {
                    old(self).active_end
                }
            }),
            final(self).blocks == old(self).blocks,
            final(self).popup == old(self).popup,
    {
        let mut all = collect_chars(self.buffer.as_str());
        let tail = collect_chars(text);
        push_all(&mut all, &tail);
        let (lines, rem) = split_complete_lines(&all);
        let ghost lv = lines@.map_values(|l: Vec<char>| l@);
        proof {
            lemma_complete_lines_len(all@);
        }
        self.buffer = string_from_chars(&rem);
        let title = !self.title_added;
        let mut count = msg_len;
        if title {
            self.title_added = true;
            self.active_start = Some(msg_len);
            count = count + 2;
        }
        let mut out: Vec<String> = Vec::new();
        let mut i: usize = 0;
        while i < lines.len()
            invariant
                i <= lines.len(),
                lv == lines@.map_values(|l: Vec<char>| l@),
                lv.len() <= all@.len(),
                count == msg_len + (if title {
                    2int
                } else {
                    0int
                }) + i,
                msg_len + 2 + all@.len() <= usize::MAX,
                strings_view(out@) == lv.take(i as int).map_values(|l: Seq<char>| thinking_line(l)),
            decreases lines.len() - i,
        {
            let line = thinking_line_exec(&lines[i]);
            let ghost before = strings_view(out@);
            out.push(line);
            proof {
                assert(strings_view(out@) =~= before.push(thinking_line(lv[i as int])));
                assert(lv.take(i + 1).map_values(|l: Seq<char>| thinking_line(l)) =~= lv.take(
                    i as int,
                ).map_values(|l: Seq<char>| thinking_line(l)).push(thinking_line(lv[i as int])));
            }
            count = count + 1;
            i = i + 1;
        }
        assert(lv.take(lines.len() as int) =~= lv);
        if lines.len() > 0 {
            self.active_end = Some(count - 1);
        }
        ThinkingChunk { title, lines: out }
    }

    /// Takes the incomplete reasoning line: the text to append (none when it is
    /// only white space). With `track_end`, the open block then ends at the last
    /// transcript line (`msg_len` lines before the append).
    pub fn take_pending_line(&mut self, msg_len: usize, track_end: bool) -> (r: Option<String>)
        requires
            track_end && old(self).buffer@.len() > 0 ==> msg_len > 0 || trim(old(self).buffer@).len() > 0,
            msg_len < usize::MAX,
        ensures
            old(self).buffer@.len() == 0 ==> r is None && final(self).active_end == old(
                self,
            ).active_end,
            old(self).buffer@.len() > 0 ==> {
                &&& (r matches Some(s) ==> s@ == thinking_prefix() + old(self).buffer@ && trim(old(self).buffer@).len() > 0)
                &&& (r is None ==> trim(old(self).buffer@).len() == 0)
                &&& final(self).active_end == if track_end {
                    Some((msg_len + (if r is Some {
                        1int
                    } else {
                        0int
                    }) - 1) as usize)
                } else {
                    old(self).active_end
                }
            },
            final(self).buffer@.len() == 0,
            final(self).title_added == old(self).title_added,
            final(self).active_start == old(self).active_start,
            final(self).blocks == old(self).blocks,
            final(self).popup == old(self).popup,
    {
        if self.buffer.as_str().is_empty() {
            return None;
        }
        let b = collect_chars(self.buffer.as_str());
        let t = trim_chars(&b);
        let r = if t.len() == 0 {
            None
        } else {
            let mut v = prefix_chars();
            push_all(&mut v, &b);
            Some(string_from_chars(&v))
        };
        self.buffer = String::new();
        if track_end {
            let n = match r {
                Some(_) => msg_len + 1,
                None => msg_len,
            };
            self.active_end = Some(n - 1);
        }
        r
    }
}

/// The block a finished reasoning run becomes: after the blank line at `blank`
/// come the title and the content lines up to `end`; the last three lines are
/// shown, and the content is cached without its prefixes.
pub open spec fn closed_block_ok(
    b: ThinkingBlock,
    raw: Seq<Seq<char>>,
    blank: int,
    end: int,
) -> bool {
    let title = blank + 1;
    let total = end - title;
    &&& b.title_idx == title
    &&& b.end_idx == end
    &&& b.scroll_offset == if total > 3 {
        total - 3
    } else {
        0
    }
    &&& strings_view(b.cached_preview@) == raw.subrange(title + 1, end + 1).map_values(
        |l: Seq<char>| unprefixed(l),
    )
}

/// A block that reasoning closed shows, of its content, only its last three
/// lines (all of them when it has three or fewer): a content line of block
/// `b` is decided by that block, and is shown exactly when it is among the
/// last three.
pub proof fn law_closed_block_shows_last_three(
    blocks: Seq<ThinkingBlock>,
    b: int,
    raw: Seq<Seq<char>>,
    blank: int,
    end: int,
    idx: int,
)
    requires
        0 <= b < blocks.len(),
        closed_block_ok(blocks[b], raw, blank, end),
        blank + 1 < idx <= end,
    ensures
        visible_from(blocks, b, idx) <==> idx + 3 > end,
{
}

/// What closing the open reasoning block does to the blocks and the
/// transcript: nothing without an open block or without content; otherwise a
/// blank line after its last line (whose index is `r`) and one more block.
pub open spec fn closes(
    start: Option<usize>,
    end: Option<usize>,
    blocks0: Seq<ThinkingBlock>,
    raw0: Seq<Seq<char>>,
    blocks1: Seq<ThinkingBlock>,
    raw1: Seq<Seq<char>>,
    r: Option<usize>,
) -> bool {
    match start {
        None => r is None && blocks1 == blocks0 && raw1 == raw0,
        Some(blank) => {
            let e = match end {
                Some(e) => e as int,
                None => blank as int,
            };
            if e > blank {
                &&& r == Some((e + 1) as usize)
                &&& raw1 == raw0.insert(e + 1, Seq::empty())
                &&& blocks1.len() == blocks0.len() + 1
                &&& blocks1.drop_last() == blocks0
                &&& closed_block_ok(blocks1.last(), raw1, blank as int, e)
            } else {
                &&& r is None
                &&& raw1 == raw0
                &&& blocks1 == blocks0
            }
        },
    }
}

/// Ending a reasoning run twice is ending it once: after `end_reasoning` no
/// line is pending and no block is open, and from such a state closing
/// leaves the blocks and the transcript as they are and reports no blank line.
pub proof fn law_end_reasoning_idempotent(
    end: Option<usize>,
    blocks0: Seq<ThinkingBlock>,
    raw0: Seq<Seq<char>>,
    blocks1: Seq<ThinkingBlock>,
    raw1: Seq<Seq<char>>,
    r: Option<usize>,
)
    requires
        closes(None, end, blocks0, raw0, blocks1, raw1, r),
    ensures
        blocks1 == blocks0,
        raw1 == raw0,
        r is None,
{
}

/// Reasoning can end on the transcript `raw`: the transcript's length fits,
/// the blocks' windows are in range, a pending blank reasoning line has a
/// transcript line to end on, and without a pending line the open block ends
/// within the transcript.
pub open spec fn can_end_reasoning(t: ThinkingState, raw: Seq<Seq<char>>) -> bool {
    &&& raw.len() + 1 < usize::MAX
    &&& blocks_wf(t.blocks@)
    &&& (t.buffer@.len() > 0 ==> raw.len() > 0 || trim(t.buffer@).len() > 0)
    &&& (t.buffer@.len() == 0 ==> close_fits(t, raw.len()))
}

/// The pending reasoning line is added to the transcript (it is not blank).
pub open spec fn reasoning_line_taken(b: Seq<char>) -> bool {
    b.len() > 0 && trim(b).len() > 0
}

/// Ending reasoning takes the state `t0` with transcript `raw0` to `t1` with
/// `raw1`, `blank` being the blank line put after the closed block: the
/// pending line, unless blank, is appended, the open block ends at the last
/// transcript line, and it is closed.
pub open spec fn ends_reasoning(
    t0: ThinkingState,
    raw0: Seq<Seq<char>>,
    t1: ThinkingState,
    raw1: Seq<Seq<char>>,
    blank: Option<usize>,
) -> bool {
    let b = t0.buffer@;
    let mid = if reasoning_line_taken(b) {
        raw0.push(thinking_prefix() + b)
    } else {
        raw0
    };
    let end = if b.len() > 0 {
        Some((mid.len() - 1) as usize)
    } else {
        t0.active_end
    };
    &&& closes(t0.active_start, end, t0.blocks@, mid, t1.blocks@, raw1, blank)
    &&& blocks_wf(t1.blocks@)
    &&& t1.buffer@.len() == 0
    &&& t1.active_start is None
    &&& (t0.active_start is None ==> t1.active_end == (if b.len() > 0 {
        Some((raw1.len() - 1) as usize)
    } else {
        t0.active_end
    }))
    &&& (t0.active_start is Some ==> t1.active_end is None && !t1.title_added)
    &&& (t0.active_start is None ==> t1.title_added == t0.title_added)
    &&& t1.popup == t0.popup
}

/// Index of the first block at or after `i` whose title line is `t`.
pub open spec fn block_with_title(blocks: Seq<ThinkingBlock>, t: usize, i: int) -> Option<usize>
    decreases blocks.len() - i,
{
    if i < 0 || i >= blocks.len() {
        None
    } else if blocks[i].title_idx == t {
        Some(i as usize)
    } else {
        block_with_title(blocks, t, i + 1)
    }
}

/// Whether closing the open block keeps to the transcript of `n` lines.
pub open spec fn close_fits(t: ThinkingState, n: nat) -> bool {
    t.active_start matches Some(b) ==> {
        let end = match t.active_end {
            Some(e) => e,
            None => b,
        };
        end > b ==> end + 1 <= n
    }
}

fn unprefixed_exec(line: &String) -> (r: String)
    ensures
        r@ == unprefixed(line@),
{
    let v = collect_chars(line.as_str());
    let p = prefix_chars();
    if crate::strutil::chars_start_with(&v, &p) {
        let rest = slice_chars(&v, 2, v.len());
        assert(rest@ =~= v@.skip(2));
        string_from_chars(&rest)
    } else {
        line.clone()
    }
}

/// Text shown when something is copied: the first 40 characters, then `…`
/// when the text is longer.
pub open spec fn copy_preview(text: Seq<char>) -> Seq<char> {
    if text.len() > 40 {
        text.take(40).push('\u{2026}')
    } else {
        text
    }
}

/// `copy_preview` computed.
pub fn clip_preview(text: &String) -> (r: String)
    ensures
        r@ == copy_preview(text@),
{
    let v = collect_chars(text.as_str());
    if v.len() > 40 {
        let mut head = slice_chars(&v, 0, 40);
        head.push('\u{2026}');
        assert(v@.subrange(0, 40) =~= v@.take(40));
        string_from_chars(&head)
    } else {
        text.clone()
    }
}

impl ThinkingState {
    /// Ends the open reasoning block. When it has content, a blank line is
    /// inserted after it (the index is returned) and it becomes a folded block.
    pub fn close_active_block(&mut self, raw: &mut Vec<String>) -> (r: Option<usize>)
        requires
            close_fits(*old(self), old(raw)@.len()),
            blocks_wf(old(self).blocks@),
        ensures
            blocks_wf(final(self).blocks@),
            final(self).active_start is None,
            old(self).active_start is None ==> r is None && final(self).active_end == old(self).active_end
                && final(self).title_added == old(self).title_added && final(self).blocks == old(self).blocks
                && *final(raw) == *old(raw),
            old(self).active_start matches Some(blank) ==> {
                let end = match old(self).active_end {
                    Some(e) => e as int,
                    None => blank as int,
                };
                &&& final(self).active_end is None
                &&& !final(self).title_added
                &&& if end > blank {
                    &&& r == Some((end + 1) as usize)
                    &&& strings_view(final(raw)@) == strings_view(old(raw)@).insert(end + 1, Seq::empty())
                    &&& final(self).blocks@.len() == old(self).blocks@.len() + 1
                    &&& final(self).blocks@.drop_last() == old(self).blocks@
                    &&& closed_block_ok(final(self).blocks@.last(), strings_view(final(raw)@), blank as int, end)
                } else {
                    &&& r is None
                    &&& *final(raw) == *old(raw)
                    &&& final(self).blocks == old(self).blocks
                }
            },
            final(self).buffer == old(self).buffer,
            final(self).popup == old(self).popup,
    {
        let blank = match self.active_start {
            None => {
                return None;
            },
            Some(b) => b,
        };
        self.active_start = None;
        let end = match self.active_end {
            Some(e) => e,
            None => blank,
        };
        self.active_end = None;
        self.title_added = false;
        if end <= blank {
            return None;
        }
        let n = raw.len();
        assert(end + 1 <= n);
        let ghost before = strings_view(raw@);
        raw.insert(end + 1, String::new());
        assert(strings_view(raw@) =~= before.insert(end + 1, Seq::<char>::empty()));
        let title = blank + 1;
        let total = end - title;
        let scroll = if total > 3 {
            total - 3
        } else {
            0
        };
        let ghost rv = strings_view(raw@);
        let mut preview: Vec<String> = Vec::new();
        let len_after = raw.len();
        assert(end < len_after);
        let mut i = title + 1;
        while i <= end
            invariant
                title + 1 <= i <= end + 1,
                end + 1 < raw@.len(),
                end < usize::MAX,
                rv == strings_view(raw@),
                strings_view(preview@) == rv.subrange(title + 1, i as int).map_values(
                    |l: Seq<char>| unprefixed(l),
                ),
            decreases end + 1 - i,
        {
            let line = unprefixed_exec(&raw[i]);
            let ghost pb = strings_view(preview@);
            preview.push(line);
            proof {
                assert(rv[i as int] == raw@[i as int]@);
                assert(strings_view(preview@) =~= pb.push(unprefixed(rv[i as int])));
                assert(rv.subrange(title + 1, i + 1).map_values(|l: Seq<char>| unprefixed(l))
                    =~= rv.subrange(title + 1, i as int).map_values(|l: Seq<char>| unprefixed(l)).push(
                    unprefixed(rv[i as int]),
                ));
            }
            i = i + 1;
        }
        let ghost ob = self.blocks@;
        self.blocks.push(
            ThinkingBlock { title_idx: title, end_idx: end, scroll_offset: scroll, cached_preview: preview },
        );
        assert(self.blocks@.drop_last() =~= ob);
        Some(end + 1)
    }

    /// Ends the reasoning run at the end of a reply: the incomplete reasoning
    /// line, unless blank, is appended to the transcript `raw` (and returned,
    /// as the first result), the open block then ends at the transcript's
    /// last line, and it is closed (the second result is the index of the
    /// blank line put after it). With nothing pending and no open block it
    /// changes nothing, so ending twice is ending once.
    pub fn end_reasoning(&mut self, raw: &mut Vec<String>) -> (r: (Option<String>, Option<usize>))
        requires
            can_end_reasoning(*old(self), strings_view(old(raw)@)),
        ensures
            (r.0 is Some) == reasoning_line_taken(old(self).buffer@),
            r.0 matches Some(l) ==> l@ == thinking_prefix() + old(self).buffer@,
            ends_reasoning(*old(self), strings_view(old(raw)@), *final(self), strings_view(final(raw)@), r.1),
    {
        let ghost b = self.buffer@;
        let ghost raw0 = strings_view(raw@);
        let n = raw.len();
        let line = self.take_pending_line(n, true);
        let ghost mid_self = *self;
        let out = match line {
            Some(l) => {
                let copy = l.clone();
                raw.push(l);
                Some(copy)
            },
            None => None,
        };
        proof {
            let mid = strings_view(raw@);
            if out is Some {
                assert(mid =~= raw0.push(thinking_prefix() + b));
            } else {
                assert(mid =~= raw0);
            }
        }
        let ghost mid = strings_view(raw@);
        let blank = self.close_active_block(raw);
        proof {
            assert(mid_self.active_start == old(self).active_start);
            if old(self).active_start is None {
                assert(strings_view(raw@) =~= mid);
            }
        }
        (out, blank)
    }

    /// Opens the popup of the first block whose title line is `title_idx`,
    /// titled with that line; nothing changes when no block has that title.
    pub fn open_popup(&mut self, title_idx: usize, raw: &Vec<String>)
        requires
            title_idx < raw@.len(),
        ensures
            match block_with_title(old(self).blocks@, title_idx, 0) {
                Some(i) => final(self).popup matches Some(p) && p.block_idx == i && p.title@
                    == raw@[title_idx as int]@ && p.scroll == 0,
                None => final(self).popup == old(self).popup,
            },
            final(self).blocks == old(self).blocks,
            final(self).buffer == old(self).buffer,
            final(self).active_start == old(self).active_start,
            final(self).active_end == old(self).active_end,
            final(self).title_added == old(self).title_added,
    {
        let mut i: usize = 0;
        while i < self.blocks.len()
            invariant
                i <= self.blocks@.len(),
                *self == *old(self),
                title_idx < raw@.len(),
                block_with_title(self.blocks@, title_idx, i as int) == block_with_title(
                    self.blocks@,
                    title_idx,
                    0,
                ),
            decreases self.blocks.len() - i,
        {
            if self.blocks[i].title_idx == title_idx {
                let title = raw[title_idx].clone();
                self.popup = Some(ThinkingPopup { block_idx: i, title, scroll: 0 });
                return ;
            }
            i = i + 1;
        }
    }

    pub fn close_popup(&mut self)
        ensures
            final(self).popup is None,
            final(self).blocks == old(self).blocks,
            final(self).buffer == old(self).buffer,
    {
        self.popup = None;
    }

    /// Scrolls the popup up a line (not above the top).
    pub fn popup_scroll_up(&mut self)
        ensures
            match old(self).popup {
                Some(p) => final(self).popup matches Some(q) && q.scroll == (if p.scroll > 0 {
                    (p.scroll - 1) as u16
                } else {
                    0
                }) && q.block_idx == p.block_idx && q.title == p.title,
                None => final(self).popup is None,
            },
            final(self).blocks == old(self).blocks,
    {
        match &mut self.popup {
            Some(p) => {
                p.scroll = p.scroll.saturating_sub(1);
            },
            None => {},
        }
    }

    /// Scrolls the popup down a line (the renderer keeps it within the content).
    pub fn popup_scroll_down(&mut self)
        ensures
            match old(self).popup {
                Some(p) => final(self).popup matches Some(q) && q.scroll == (if p.scroll < u16::MAX {
                    (p.scroll + 1) as u16
                } else {
                    u16::MAX
                }) && q.block_idx == p.block_idx && q.title == p.title,
                None => final(self).popup is None,
            },
            final(self).blocks == old(self).blocks,
    {
        match &mut self.popup {
            Some(p) => {
                p.scroll = p.scroll.saturating_add(1);
            },
            None => {},
        }
    }

    /// The content of the block in the popup, lines joined by newlines; none
    /// without a popup or for an empty block.
    pub fn popup_text(&self) -> (r: Option<String>)
        requires
            self.popup matches Some(p) ==> p.block_idx < self.blocks@.len(),
        ensures
            match self.popup {
                None => r is None,
                Some(p) => {
                    let prev = strings_view(self.blocks@[p.block_idx as int].cached_preview@);
                    if prev.len() == 0 {
                        r is None
                    } else {
                        r matches Some(s) && s@ == join(prev, seq!['\n'])
                    }
                },
            },
    {
        match &self.popup {
            None => None,
            Some(p) => {
                let block = &self.blocks[p.block_idx];
                if block.cached_preview.len() == 0 {
                    return None;
                }
                let nl = "\n";
                proof {
                    reveal_strlit("\n");
                    assert(nl@ =~= seq!['\n']);
                    assert(block.cached_preview@.map_values(|s: String| s@) =~= strings_view(block.cached_preview@));
                }
                Some(join_strings(&block.cached_preview, nl))
            },
        }
    }
}

proof fn lemma_complete_lines_len(s: Seq<char>)
    ensures
        complete_lines(s).len() <= s.len(),
    decreases s.len(),
{
    let q = crate::cursor::next_newline_from(s, 0);
    crate::cursor::lemma_next_newline_bounds(s, 0);
    if q < s.len() {
        lemma_complete_lines_len(s.skip(q + 1));
    }
}

/// The note put before the title of a folded block that has more than
/// three lines: the template's first slot gets the number shown (three),
/// the second the block's line count.
pub fn scroll_indicator(tmpl: &str, total: usize) -> (r: String)
    ensures
        r@ == (if total > 3 {
            crate::session::fill_next(crate::session::fill_next(tmpl@, crate::strutil::decimal(3)), crate::strutil::decimal(total as nat))
        } else {
            Seq::<char>::empty()
        }),
{
    if total > 3 {
        let three = crate::strutil::decimal_string(3);
        let n = crate::strutil::decimal_string(total);
        let a = crate::strutil::replace_first_str(tmpl, "{}", three.as_str());
        crate::strutil::replace_first_str(a.as_str(), "{}", n.as_str())
    } else {
        String::new()
    }
}

} // verus!
