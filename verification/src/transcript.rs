//! The transcript of the log: styled lines for the screen and their raw
//! texts, kept in lockstep, and how streamed output and the end of a reply
//! change it. Drawing a line is left to a renderer, of which nothing is
//! assumed but that it gives lines.
use vstd::prelude::*;
use crate::stream::{
    flushed, flush_all_spec, indicator, ops_view, strip_streaming_indicator, OpView, StreamModel,
    StreamOp, StreamState,
};
use crate::strutil::{ends_with, strip_suffixes, trim, trim_chars};
use crate::text::{collect_chars, strings_view};
use crate::thinking::{
    can_end_reasoning, close_fits, ends_reasoning, reasoning_line_taken, thinking_prefix,
    ThinkingState,
};

verus! {

/// Draws transcript lines of type `L`.
pub trait LineRender<L> {
    /// The styled lines of Markdown text, and their raw texts.
    fn markdown(&self, text: &String) -> (Vec<L>, Vec<String>);

    /// The styled lines of a laid-out table, and their raw texts.
    fn table(&self, rows: &Vec<String>) -> (Vec<L>, Vec<String>);

    /// A line of a code block.
    fn code_line(&self, text: &String) -> L;

    /// The opening fence line of a code block.
    fn fence_line(&self, text: &String) -> L;

    /// A line of reasoning.
    fn reasoning_line(&self, text: &String) -> L;

    /// An empty line.
    fn blank_line(&self) -> L;
}

/// Why changing the transcript stopped.
#[derive(Clone, Copy, Debug, PartialEq, Eq, Structural)]
pub enum Applied {
    Done,
    /// A rendering gave styled and raw lines of different counts.
    Mismatch,
    /// The lines of the code block being closed lie past the transcript's end.
    OutOfRange,
}

/// The transcript with the streaming marker taken off its last line, where
/// that line has it.
pub open spec fn unmark(raw: Seq<Seq<char>>) -> Seq<Seq<char>> {
    if raw.len() > 0 && ends_with(raw.last(), indicator()) {
        raw.update(raw.len() - 1, strip_suffixes(raw.last(), indicator()))
    } else {
        raw
    }
}

/// One operation applied to the raw transcript and the start of the open
/// code block; `piece` is what the renderer gave for it, where it renders.
/// `None` where the lines of a closed code block lie past the end.
pub open spec fn apply_op(
    raw: Seq<Seq<char>>,
    start: Option<usize>,
    op: OpView,
    piece: Seq<Seq<char>>,
) -> Option<(Seq<Seq<char>>, Option<usize>)> {
    match op {
        OpView::Markdown(_) => Some((raw + piece, start)),
        OpView::Table(_) => Some((raw + piece, start)),
        OpView::Blank => Some((raw.push(Seq::empty()), start)),
        OpView::OpenCode(h) => Some((raw.push(h), Some(raw.len() as usize))),
        OpView::CodeLine(l, unmark_previous) => Some(
            ((if unmark_previous {
                unmark(raw)
            } else {
                raw
            }).push(l), start),
        ),
        OpView::CloseCode(_, n, render) => {
            let u = unmark(raw);
            let add = if render {
                piece
            } else {
                Seq::empty()
            };
            match start {
                Some(st) => if st + n <= u.len() {
                    Some((u.take(st as int) + add + u.skip(st + n), None))
                } else {
                    None
                },
                None => Some((u + add, None)),
            }
        },
    }
}

/// The operations applied in order, with the renderer's pieces.
pub open spec fn apply_ops(
    raw: Seq<Seq<char>>,
    start: Option<usize>,
    ops: Seq<OpView>,
    pieces: Seq<Seq<Seq<char>>>,
) -> Option<(Seq<Seq<char>>, Option<usize>)>
    decreases ops.len(),
{
    if ops.len() == 0 {
        Some((raw, start))
    } else {
        match apply_ops(raw, start, ops.drop_last(), pieces.drop_last()) {
            Some((r, s)) => apply_op(r, s, ops.last(), pieces.last()),
            None => None,
        }
    }
}

/// Takes the streaming marker off the last line, where it has one.
fn unmark_last<L, R: LineRender<L>>(styled: &mut Vec<L>, raw: &mut Vec<String>, render: &R)
    requires
        old(styled)@.len() == old(raw)@.len(),
    ensures
        final(styled)@.len() == final(raw)@.len(),
        strings_view(final(raw)@) == unmark(strings_view(old(raw)@)),
{
    let ghost r0 = strings_view(raw@);
    let n = raw.len();
    if n == 0 {
        return;
    }
    match strip_streaming_indicator(&raw[n - 1]) {
        Some(t) => {
            let shown = render.code_line(&t);
            styled.set(n - 1, shown);
            raw.set(n - 1, t);
            assert(strings_view(raw@) =~= r0.update(n - 1, strip_suffixes(r0.last(), indicator())));
        },
        None => {},
    }
}

/// Applies the operations of the stream to the transcript; `code_start` is
/// where the open code block's lines begin. The renderer's lines are taken
/// as they come.
pub fn apply_stream_ops<L, R: LineRender<L>>(
    ops: &Vec<StreamOp>,
    code_start: &mut Option<usize>,
    styled: &mut Vec<L>,
    raw: &mut Vec<String>,
    render: &R,
) -> (r: Applied)
    requires
        old(styled)@.len() == old(raw)@.len(),
    ensures
        final(styled)@.len() == final(raw)@.len(),
        r == Applied::Done ==> exists|pieces: Seq<Seq<Seq<char>>>|
            #[trigger] apply_ops(strings_view(old(raw)@), *old(code_start), ops_view(ops@), pieces)
                == Some((strings_view(final(raw)@), *final(code_start))),
        r == Applied::OutOfRange ==> exists|pieces: Seq<Seq<Seq<char>>>|
            #[trigger] apply_ops(strings_view(old(raw)@), *old(code_start), ops_view(ops@), pieces)
                is None,
{
    let ghost raw0 = strings_view(raw@);
    let ghost start0 = *code_start;
    let ghost mut pieces: Seq<Seq<Seq<char>>> = Seq::empty();
    let ghost ov = ops_view(ops@);
    let mut i: usize = 0;
    while i < ops.len()
        invariant
            i <= ops.len(),
            ov == ops_view(ops@),
            raw0 == strings_view(old(raw)@),
            start0 == *old(code_start),
            styled@.len() == raw@.len(),
            pieces.len() == i,
            apply_ops(raw0, start0, ov.take(i as int), pieces) == Some((strings_view(raw@), *code_start)),
        decreases ops.len() - i,
    {
        let ghost r_before = strings_view(raw@);
        let ghost s_before = *code_start;
        let ghost mut piece: Seq<Seq<char>> = Seq::empty();
        match &ops[i] {
            StreamOp::Markdown(text) => {
                let (mut ls, mut rs) = render.markdown(text);
                if ls.len() != rs.len() {
                    return Applied::Mismatch;
                }
                proof {
                    piece = strings_view(rs@);
                }
                styled.append(&mut ls);
                raw.append(&mut rs);
                assert(strings_view(raw@) =~= r_before + piece);
            },
            StreamOp::Table(rows) => {
                let (mut ls, mut rs) = render.table(rows);
                if ls.len() != rs.len() {
                    return Applied::Mismatch;
                }
                proof {
                    piece = strings_view(rs@);
                }
                styled.append(&mut ls);
                raw.append(&mut rs);
                assert(strings_view(raw@) =~= r_before + piece);
            },
            StreamOp::Blank => {
                styled.push(render.blank_line());
                raw.push(String::new());
                assert(strings_view(raw@) =~= r_before.push(Seq::empty()));
            },
            StreamOp::OpenCode(header) => {
                *code_start = Some(raw.len());
                styled.push(render.fence_line(header));
                raw.push(header.clone());
                assert(strings_view(raw@) =~= r_before.push(header@));
            },
            StreamOp::CodeLine { line, unmark_previous } => {
                if *unmark_previous {
                    unmark_last(styled, raw, render);
                }
                let ghost r_mid = strings_view(raw@);
                let mut shown = line.clone();
                shown.append(" \u{258c}");
                styled.push(render.code_line(&shown));
                raw.push(line.clone());
                assert(strings_view(raw@) =~= r_mid.push(line@));
            },
            StreamOp::CloseCode { code, line_count, render: rendered } => {
                let mut ls: Vec<L> = Vec::new();
                let mut rs: Vec<String> = Vec::new();
                if *rendered {
                    let (a, b) = render.markdown(code);
                    ls = a;
                    rs = b;
                    if ls.len() != rs.len() {
                        return Applied::Mismatch;
                    }
                }
                proof {
                    piece = strings_view(rs@);
                }
                unmark_last(styled, raw, render);
                let ghost u = strings_view(raw@);
                let add = Ghost(if *rendered { piece } else { Seq::<Seq<char>>::empty() });
                assert(strings_view(rs@) =~= add@);
                match *code_start {
                    Some(st) => {
                        let n = raw.len();
                        if st > n || *line_count > n - st {
                            proof {
                                let ps = pieces.push(piece);
                                assert(ov.take(i + 1).drop_last() =~= ov.take(i as int));
                                assert(ps.drop_last() =~= pieces);
                                assert(apply_ops(raw0, start0, ov.take(i + 1), ps) is None);
                                lemma_apply_ops_none_extends(raw0, start0, ov, ps, i + 1);
                                assert(raw0 == strings_view(old(raw)@));
                                assert(start0 == *old(code_start));
                                assert(exists|pieces: Seq<Seq<Seq<char>>>|
                                    #[trigger] apply_ops(strings_view(old(raw)@), *old(code_start), ops_view(ops@), pieces)
                                        is None);
                            }
                            return Applied::OutOfRange;
                        }
                        let e = st + *line_count;
                        let mut tail_s = styled.split_off(e);
                        let mut tail_r = raw.split_off(e);
                        styled.truncate(st);
                        raw.truncate(st);
                        styled.append(&mut ls);
                        raw.append(&mut rs);
                        styled.append(&mut tail_s);
                        raw.append(&mut tail_r);
                        assert(strings_view(raw@) =~= u.take(st as int) + add@ + u.skip(e as int));
                    },
                    None => {
                        styled.append(&mut ls);
                        raw.append(&mut rs);
                        assert(strings_view(raw@) =~= u + add@);
                    },
                }
                *code_start = None;
            },
        }
        proof {
            assert(ov.take(i + 1).drop_last() =~= ov.take(i as int));
            assert(ov.take(i + 1).last() == ov[i as int]);
            assert(ov[i as int] == crate::stream::op_view(ops@[i as int]));
            let ps = pieces.push(piece);
            assert(ps.drop_last() =~= pieces);
            pieces = ps;
        }
        i = i + 1;
    }
    assert(ov.take(ops.len() as int) =~= ov);
    Applied::Done
}

/// Once applying fails at operation `k`, applying all of them fails.
proof fn lemma_apply_ops_none_extends(
    raw: Seq<Seq<char>>,
    start: Option<usize>,
    ops: Seq<OpView>,
    pieces: Seq<Seq<Seq<char>>>,
    k: int,
)
    requires
        0 <= k <= ops.len(),
        pieces.len() == k,
        apply_ops(raw, start, ops.take(k), pieces) is None,
    ensures
        exists|ps: Seq<Seq<Seq<char>>>| #[trigger] apply_ops(raw, start, ops, ps) is None,
    decreases ops.len() - k,
{
    if k == ops.len() {
        assert(ops.take(k) =~= ops);
        assert(apply_ops(raw, start, ops, pieces) is None);
    } else {
        let ps = pieces.push(Seq::empty());
        assert(ops.take(k + 1).drop_last() =~= ops.take(k));
        assert(ps.drop_last() =~= pieces);
        lemma_apply_ops_none_extends(raw, start, ops, ps, k + 1);
    }
}

// ---------- the end of a reply ----------

/// How ending a reply went.
#[derive(Clone, Copy, Debug, PartialEq, Eq, Structural)]
pub enum Flushed {
    Done,
    /// A rendering gave styled and raw lines of different counts.
    Mismatch,
    /// The lines of the open code block lie past the transcript's end.
    OutOfRange,
    /// The reasoning run cannot end on the transcript (`can_end_reasoning`
    /// does not hold).
    CannotEnd,
}

/// Whether reasoning can end on `raw` (the blank-line test goes through
/// `str::trim`'s notion of white space, `char::is_whitespace`).
pub fn can_end(t: &ThinkingState, raw: &Vec<String>) -> (b: bool)
    requires
        crate::log_view::blocks_wf(t.blocks@),
    ensures
        b == can_end_reasoning(*t, strings_view(raw@)),
{
    if raw.len() >= usize::MAX - 1 {
        return false;
    }
    if t.buffer.as_str().is_empty() {
        proof {
            assert(t.buffer@.len() == 0) by {
                crate::text::lemma_len_le_byte_len(t.buffer@);
            }
        }
        match t.active_start {
            Some(b) => {
                let end = match t.active_end {
                    Some(e) => e,
                    None => b,
                };
                !(end > b && end >= raw.len())
            },
            None => true,
        }
    } else {
        if raw.len() > 0 {
            return true;
        }
        let v = collect_chars(t.buffer.as_str());
        let tr = trim_chars(&v);
        tr.len() > 0
    }
}

/// Ending a reply turned the stream state `m0` with incomplete line `buf0`,
/// the open code block's start `start0`, the reasoning state `t0` and the
/// transcript `raw0` into `start1`, `t1` and `raw1`: the pending operations
/// were applied (with the renderer's `pieces`) giving `mid`, reasoning then
/// ended there giving `ended` (and the blank line `blank`), and the
/// incomplete line's rendering `rest_piece` was appended, where there was one.
pub open spec fn flush_done(
    m0: StreamModel,
    buf0: Seq<char>,
    start0: Option<usize>,
    t0: ThinkingState,
    raw0: Seq<Seq<char>>,
    start1: Option<usize>,
    t1: ThinkingState,
    raw1: Seq<Seq<char>>,
    pieces: Seq<Seq<Seq<char>>>,
    mid: Seq<Seq<char>>,
    ended: Seq<Seq<char>>,
    blank: Option<usize>,
    rest_piece: Seq<Seq<char>>,
) -> bool {
    let ops = flush_all_spec(m0, buf0).2;
    &&& apply_ops(raw0, start0, ops, pieces) == Some((mid, start1))
    &&& can_end_reasoning(t0, mid)
    &&& ends_reasoning(t0, mid, t1, ended, blank)
    &&& raw1 == (if buf0.len() > 0 {
        ended + rest_piece
    } else {
        ended
    })
}

/// Ending a reply stopped because reasoning could not end on the transcript
/// that the pending operations left.
pub open spec fn end_blocked(
    m0: StreamModel,
    buf0: Seq<char>,
    start0: Option<usize>,
    t0: ThinkingState,
    raw0: Seq<Seq<char>>,
    pieces: Seq<Seq<Seq<char>>>,
    mid: Seq<Seq<char>>,
    start1: Option<usize>,
) -> bool {
    &&& apply_ops(raw0, start0, flush_all_spec(m0, buf0).2, pieces) == Some((mid, start1))
    &&& !can_end_reasoning(t0, mid)
}

/// Nothing is pending at the end of a reply: no grouped output, no
/// incomplete line, no reasoning line and no open reasoning block.
pub open spec fn nothing_pending(s: StreamState, t: ThinkingState) -> bool {
    &&& flushed(s.model())
    &&& s.buffer@.len() == 0
    &&& t.buffer@.len() == 0
    &&& t.active_start is None
}

/// Ends a reply: the stream's pending groups are applied to the transcript
/// (`styled` and `raw` in lockstep), the reasoning run ends on it, and the
/// incomplete last line is rendered and appended. Afterwards nothing is
/// pending, so ending a reply again changes nothing (where the transcript
/// can still grow by a line).
pub fn flush_pending<L, R: LineRender<L>>(
    stream: &mut StreamState,
    thinking: &mut ThinkingState,
    code_start: &mut Option<usize>,
    styled: &mut Vec<L>,
    raw: &mut Vec<String>,
    render: &R,
) -> (r: Flushed)
    requires
        old(styled)@.len() == old(raw)@.len(),
        crate::log_view::blocks_wf(old(thinking).blocks@),
    ensures
        final(styled)@.len() == final(raw)@.len(),
        final(stream).model() == flush_all_spec(old(stream).model(), old(stream).buffer@).0,
        final(stream).buffer@.len() == 0,
        flushed(final(stream).model()),
        r == Flushed::Done ==> nothing_pending(*final(stream), *final(thinking)),
        r == Flushed::Done && old(stream).code_block ==> *final(code_start) is None,
        r == Flushed::Done ==> exists|
            pieces: Seq<Seq<Seq<char>>>,
            mid: Seq<Seq<char>>,
            ended: Seq<Seq<char>>,
            blank: Option<usize>,
            rest_piece: Seq<Seq<char>>,
        |
            #[trigger] flush_done(
                old(stream).model(),
                old(stream).buffer@,
                *old(code_start),
                *old(thinking),
                strings_view(old(raw)@),
                *final(code_start),
                *final(thinking),
                strings_view(final(raw)@),
                pieces,
                mid,
                ended,
                blank,
                rest_piece,
            ),
        r == Flushed::OutOfRange ==> exists|pieces: Seq<Seq<Seq<char>>>|
            #[trigger] apply_ops(
                strings_view(old(raw)@),
                *old(code_start),
                flush_all_spec(old(stream).model(), old(stream).buffer@).2,
                pieces,
            ) is None,
        r == Flushed::CannotEnd ==> exists|
            pieces: Seq<Seq<Seq<char>>>,
            mid: Seq<Seq<char>>,
            start1: Option<usize>,
        |
            #[trigger] end_blocked(
                old(stream).model(),
                old(stream).buffer@,
                *old(code_start),
                *old(thinking),
                strings_view(old(raw)@),
                pieces,
                mid,
                start1,
            ),
        nothing_pending(*old(stream), *old(thinking)) && old(raw)@.len() + 1 < usize::MAX ==> {
            &&& r == Flushed::Done
            &&& final(stream).model() == old(stream).model()
            &&& *final(code_start) == *old(code_start)
            &&& final(styled)@ == old(styled)@
            &&& strings_view(final(raw)@) == strings_view(old(raw)@)
            &&& final(thinking).buffer@ == old(thinking).buffer@
            &&& final(thinking).active_start == old(thinking).active_start
            &&& final(thinking).active_end == old(thinking).active_end
            &&& final(thinking).title_added == old(thinking).title_added
            &&& final(thinking).blocks@ == old(thinking).blocks@
            &&& final(thinking).popup == old(thinking).popup
        },
{
    let ghost m0 = stream.model();
    let ghost buf0 = stream.buffer@;
    let ghost raw0 = strings_view(raw@);
    let ghost start0 = *code_start;
    let ghost t0 = *thinking;
    let (ops, rest) = stream.flush_all();
    let ghost ov = ops_view(ops@);
    assert(ov == flush_all_spec(m0, buf0).2);
    let ghost mut pieces: Seq<Seq<Seq<char>>> = Seq::empty();
    if ops.len() > 0 {
        match apply_stream_ops(&ops, code_start, styled, raw, render) {
            Applied::Done => {
                proof {
                    pieces = choose|ps: Seq<Seq<Seq<char>>>|
                        #[trigger] apply_ops(raw0, start0, ov, ps) == Some((strings_view(raw@), *code_start));
                }
            },
            Applied::Mismatch => {
                return Flushed::Mismatch;
            },
            Applied::OutOfRange => {
                return Flushed::OutOfRange;
            },
        }
    } else {
        assert(apply_ops(raw0, start0, ov, pieces) == Some((raw0, start0)));
    }
    let ghost mid = strings_view(raw@);
    let ghost start1 = *code_start;
    assert(apply_ops(raw0, start0, ov, pieces) == Some((mid, start1)));
    if !can_end(thinking, raw) {
        assert(end_blocked(m0, buf0, start0, t0, raw0, pieces, mid, start1));
        return Flushed::CannotEnd;
    }
    let ghost styled_mid = styled@.len();
    let (line, blank) = thinking.end_reasoning(raw);
    let ghost ended = strings_view(raw@);
    match line {
        Some(t) => {
            styled.push(render.reasoning_line(&t));
        },
        None => {},
    }
    proof {
        lemma_ended_len(t0, mid, *thinking, ended, blank);
    }
    match blank {
        Some(i) => {
            styled.insert(i, render.blank_line());
        },
        None => {},
    }
    let ghost mut rest_piece: Seq<Seq<char>> = Seq::empty();
    match rest {
        Some(text) => {
            let (mut ls, mut rs) = render.markdown(&text);
            if ls.len() != rs.len() {
                return Flushed::Mismatch;
            }
            proof {
                rest_piece = strings_view(rs@);
            }
            styled.append(&mut ls);
            raw.append(&mut rs);
            assert(strings_view(raw@) =~= ended + rest_piece);
        },
        None => {},
    }
    assert(flush_done(m0, buf0, start0, t0, raw0, start1, *thinking, strings_view(raw@), pieces, mid, ended, blank, rest_piece));
    proof {
        if m0.code_block {
            lemma_close_clears_start(m0, buf0, raw0, start0, pieces);
        }
    }
    Flushed::Done
}

/// The transcript after ending reasoning has the lines of `mid`, the taken
/// line and the blank line; the blank line goes at most one past the end.
proof fn lemma_ended_len(
    t0: ThinkingState,
    mid: Seq<Seq<char>>,
    t1: ThinkingState,
    ended: Seq<Seq<char>>,
    blank: Option<usize>,
)
    requires
        can_end_reasoning(t0, mid),
        ends_reasoning(t0, mid, t1, ended, blank),
    ensures
        ({
            let n = mid.len() + (if reasoning_line_taken(t0.buffer@) { 1int } else { 0int });
            &&& blank is None ==> ended.len() == n
            &&& blank matches Some(i) ==> i <= n && ended.len() == n + 1
        }),
{
}

/// Flushing an open code block closes it, so its start is forgotten: the
/// operations end with the close or with a paragraph after it.
proof fn lemma_close_clears_start(
    m0: StreamModel,
    buf0: Seq<char>,
    raw0: Seq<Seq<char>>,
    start0: Option<usize>,
    pieces: Seq<Seq<Seq<char>>>,
)
    requires
        m0.code_block,
        apply_ops(raw0, start0, flush_all_spec(m0, buf0).2, pieces) is Some,
    ensures
        apply_ops(raw0, start0, flush_all_spec(m0, buf0).2, pieces).unwrap().1 is None,
{
    let (m1, o1) = crate::stream::flush_table(m0);
    let (m2, o2) = crate::stream::close_code(m1);
    let (m3, o3) = crate::stream::flush_paragraph(m2);
    let ops = flush_all_spec(m0, buf0).2;
    assert(ops == o1 + o2 + o3);
    assert(o2.len() == 1 && o2[0] is CloseCode);
    let res = apply_ops(raw0, start0, ops, pieces);
    if o3.len() == 0 {
        assert(ops =~= o1 + o2);
        assert(ops.last() == o2[0]);
        let prev = apply_ops(raw0, start0, ops.drop_last(), pieces.drop_last());
        assert(prev is Some);
        assert(res == apply_op(prev.unwrap().0, prev.unwrap().1, ops.last(), pieces.last()));
    } else {
        assert(o3.len() == 1 && o3[0] is Markdown);
        let ops2 = ops.drop_last();
        let ps2 = pieces.drop_last();
        assert(ops2 =~= o1 + o2);
        assert(ops.last() == o3[0]);
        assert(ops2.last() == o2[0]);
        let prev = apply_ops(raw0, start0, ops2, ps2);
        assert(prev is Some);
        assert(res == apply_op(prev.unwrap().0, prev.unwrap().1, ops.last(), pieces.last()));
        let prev2 = apply_ops(raw0, start0, ops2.drop_last(), ps2.drop_last());
        assert(prev2 is Some);
        assert(prev == apply_op(prev2.unwrap().0, prev2.unwrap().1, ops2.last(), ps2.last()));
        assert(prev.unwrap().1 is None);
    }
}

} // verus!
