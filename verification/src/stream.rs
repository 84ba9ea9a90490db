//! Line buffering of streamed model output.
//!
//! Streamed text arrives in chunks. Complete lines are grouped: ordinary
//! lines into paragraphs (rendered as Markdown when a blank line, a rule, a
//! table or a code fence ends them), `|` lines into tables, and fenced code
//! blocks shown line by line while streaming, then rendered as a whole when
//! the closing fence arrives. The groups come out as operations that the
//! caller applies to the transcript, in order.
use vstd::prelude::*;
use crate::text::strings_view;
use crate::cursor::{lemma_next_newline_bounds, next_newline, next_newline_from};
use crate::log_view::fence;
use crate::markdown::{horizontal_rule, is_horizontal_rule};
use crate::strutil::{
    chars_end_with, chars_eq, chars_start_with, join, join_char_vecs, push_all, slice_chars,
    starts_with, strip_suffixes, strip_suffixes_chars, ends_with, trim, trim_chars,
};
use crate::text::{collect_chars, string_from_chars};

verus! {

// ---------- complete lines ----------

/// The complete (newline-terminated) lines of `s`, without their newlines.
pub open spec fn complete_lines(s: Seq<char>) -> Seq<Seq<char>>
    decreases s.len(),
{
    let q = next_newline_from(s, 0);
    if q >= s.len() {
        Seq::empty()
    } else {
        proof {
            lemma_next_newline_bounds(s, 0);
        }
        seq![s.take(q)] + complete_lines(s.skip(q + 1))
    }
}

/// What follows the last newline of `s` (all of `s` when it has none).
pub open spec fn line_remainder(s: Seq<char>) -> Seq<char>
    decreases s.len(),
{
    let q = next_newline_from(s, 0);
    if q >= s.len() {
        s
    } else {
        proof {
            lemma_next_newline_bounds(s, 0);
        }
        line_remainder(s.skip(q + 1))
    }
}

proof fn lemma_next_newline_skip_shift(s: Seq<char>, a: int, k: int)
    requires
        0 <= a <= k <= s.len(),
    ensures
        next_newline_from(s.skip(a), k - a) == next_newline_from(s, k) - a,
    decreases s.len() - k,
{
    if k < s.len() && s[k] != '\n' {
        lemma_next_newline_skip_shift(s, a, k + 1);
    }
}

/// Complete lines of `v`, and what follows the last newline.
pub fn split_complete_lines(v: &Vec<char>) -> (r: (Vec<Vec<char>>, Vec<char>))
    ensures
        r.0@.map_values(|l: Vec<char>| l@) == complete_lines(v@),
        r.1@ == line_remainder(v@),
{
    let mut lines: Vec<Vec<char>> = Vec::new();
    let mut start: usize = 0;
    assert(v@.skip(0) =~= v@);
    loop
        invariant_except_break
            start <= v.len(),
            lines@.map_values(|l: Vec<char>| l@) + complete_lines(v@.skip(start as int))
                == complete_lines(v@),
            line_remainder(v@.skip(start as int)) == line_remainder(v@),
        ensures
            start <= v.len(),
            lines@.map_values(|l: Vec<char>| l@) == complete_lines(v@),
            v@.skip(start as int) == line_remainder(v@),
        decreases v.len() - start,
    {
        let q = next_newline(v, start);
        let ghost rest = v@.skip(start as int);
        proof {
            lemma_next_newline_bounds(v@, start as int);
            lemma_next_newline_skip_shift(v@, start as int, start as int);
            assert(rest.skip(0) =~= rest);
        }
        if q >= v.len() {
            proof {
                assert(complete_lines(rest) =~= Seq::<Seq<char>>::empty());
                assert(lines@.map_values(|l: Vec<char>| l@) + complete_lines(rest) =~= lines@.map_values(
                    |l: Vec<char>| l@,
                ));
            }
            break;
        }
        let line = slice_chars(v, start, q);
        let ghost before = lines@.map_values(|l: Vec<char>| l@);
        lines.push(line);
        proof {
            assert(rest.take(q - start) =~= v@.subrange(start as int, q as int));
            assert(rest.skip(q - start + 1) =~= v@.skip(q + 1));
            assert(lines@.map_values(|l: Vec<char>| l@) =~= before.push(v@.subrange(start as int, q as int)));
            assert(complete_lines(rest) =~= seq![rest.take(q - start)] + complete_lines(v@.skip(q + 1)));
            assert(lines@.map_values(|l: Vec<char>| l@) + complete_lines(v@.skip(q + 1)) =~= before
                + complete_lines(rest));
        }
        start = q + 1;
    }
    let rem = slice_chars(v, start, v.len());
    assert(rem@ =~= v@.skip(start as int));
    (lines, rem)
}

// ---------- the streaming indicator ----------

/// Marker drawn after a code line while it is being streamed.
pub open spec fn indicator() -> Seq<char> {
    seq![' ', '\u{258c}']
}

fn indicator_chars() -> (v: Vec<char>)
    ensures
        v@ == indicator(),
{
    let mut v = Vec::new();
    v.push(' ');
    v.push('\u{258c}');
    v
}

/// The line without its trailing streaming markers, when it ends with one.
pub fn strip_streaming_indicator(line: &String) -> (r: Option<String>)
    ensures
        match r {
            Some(s) => ends_with(line@, indicator()) && s@ == strip_suffixes(line@, indicator()),
            None => !ends_with(line@, indicator()),
        },
{
    let v = collect_chars(line.as_str());
    let ind = indicator_chars();
    if chars_end_with(&v, &ind) {
        let t = strip_suffixes_chars(&v, &ind);
        Some(string_from_chars(&t))
    } else {
        None
    }
}

// ---------- operations ----------

/// What the caller does to the transcript, in order.
pub enum StreamOp {
    /// Render the text as Markdown and append the lines.
    Markdown(String),
    /// Lay out the lines as a table and append them.
    Table(Vec<String>),
    /// Append an empty line.
    Blank,
    /// Append the fence line that opens a code block; the block starts at that line.
    OpenCode(String),
    /// Append a line of the streamed code block (drawn with the streaming
    /// marker); when `unmark_previous`, first take the marker off the line before.
    CodeLine { line: String, unmark_previous: bool },
    /// Take the marker off the last line, then replace the `line_count` lines
    /// of the block (from its opening fence on) by the rendering of `code`,
    /// or remove them when `render` is false.
    CloseCode { code: String, line_count: usize, render: bool },
}

pub ghost enum OpView {
    Markdown(Seq<char>),
    Table(Seq<Seq<char>>),
    Blank,
    OpenCode(Seq<char>),
    CodeLine(Seq<char>, bool),
    CloseCode(Seq<char>, nat, bool),
}

pub open spec fn op_view(op: StreamOp) -> OpView {
    match op {
        StreamOp::Markdown(s) => OpView::Markdown(s@),
        StreamOp::Table(v) => OpView::Table(v@.map_values(|l: String| l@)),
        StreamOp::Blank => OpView::Blank,
        StreamOp::OpenCode(s) => OpView::OpenCode(s@),
        StreamOp::CodeLine { line, unmark_previous } => OpView::CodeLine(line@, unmark_previous),
        StreamOp::CloseCode { code, line_count, render } => OpView::CloseCode(
            code@,
            line_count as nat,
            render,
        ),
    }
}

pub open spec fn ops_view(ops: Seq<StreamOp>) -> Seq<OpView> {
    ops.map_values(|o: StreamOp| op_view(o))
}

// ---------- state ----------

/// The grouping state of streamed output.
pub struct StreamState {
    /// Text after the last complete line.
    pub buffer: String,
    /// Ordinary lines of the current paragraph, joined by newlines.
    pub paragraph: String,
    /// Lines of the current table.
    pub table_buffer: Vec<String>,
    /// Inside a fenced code block.
    pub code_block: bool,
    pub code_block_lang: String,
    pub code_block_buffer: Vec<String>,
    /// Lines shown for the code block so far, its fence included.
    pub code_block_line_count: usize,
}

pub ghost struct StreamModel {
    pub paragraph: Seq<char>,
    pub table: Seq<Seq<char>>,
    pub code_block: bool,
    pub lang: Seq<char>,
    pub code_lines: Seq<Seq<char>>,
    pub line_count: nat,
}

impl StreamState {
    pub fn new() -> (s: StreamState)
        ensures
            s.buffer@.len() == 0,
            s.model() == (StreamModel {
                paragraph: Seq::empty(),
                table: Seq::empty(),
                code_block: false,
                lang: Seq::empty(),
                code_lines: Seq::empty(),
                line_count: 0,
            }),
    {
        let s = StreamState {
            buffer: String::new(),
            paragraph: String::new(),
            table_buffer: Vec::new(),
            code_block: false,
            code_block_lang: String::new(),
            code_block_buffer: Vec::new(),
            code_block_line_count: 0,
        };
        assert(s.model().table =~= Seq::<Seq<char>>::empty());
        assert(s.model().code_lines =~= Seq::<Seq<char>>::empty());
        s
    }

    pub open spec fn model(&self) -> StreamModel {
        StreamModel {
            paragraph: self.paragraph@,
            table: strings_view(self.table_buffer@),
            code_block: self.code_block,
            lang: self.code_block_lang@,
            code_lines: strings_view(self.code_block_buffer@),
            line_count: self.code_block_line_count as nat,
        }
    }
}

// ---------- transitions ----------

/// The source text of a code block: opening fence with its language, the
/// lines, the closing fence, separated by newlines.
pub open spec fn code_text(lang: Seq<char>, lines: Seq<Seq<char>>) -> Seq<char> {
    fence() + lang + seq!['\n'] + join(lines, seq!['\n']) + seq!['\n'] + fence()
}

pub open spec fn flush_paragraph(m: StreamModel) -> (StreamModel, Seq<OpView>) {
    if m.paragraph.len() > 0 {
        (StreamModel { paragraph: Seq::empty(), ..m }, seq![OpView::Markdown(m.paragraph)])
    } else {
        (m, Seq::empty())
    }
}

pub open spec fn flush_table(m: StreamModel) -> (StreamModel, Seq<OpView>) {
    if m.table.len() > 0 {
        (StreamModel { table: Seq::empty(), ..m }, seq![OpView::Table(m.table)])
    } else {
        (m, Seq::empty())
    }
}

/// Closing the code block: its text is handed over for rendering.
pub open spec fn close_code(m: StreamModel) -> (StreamModel, Seq<OpView>) {
    let code = code_text(m.lang, m.code_lines);
    (
        StreamModel { code_block: false, lang: Seq::empty(), code_lines: Seq::empty(), line_count: 0, ..m },
        seq![OpView::CloseCode(code, m.line_count, trim(code).len() > 0)],
    )
}

/// The effect of one complete streamed line.
pub open spec fn stream_line(m: StreamModel, line: Seq<char>) -> (StreamModel, Seq<OpView>) {
    let t = trim(line);
    if t == fence() && m.code_block {
        close_code(m)
    } else if m.code_block {
        (
            StreamModel {
                code_lines: m.code_lines.push(line),
                line_count: if m.line_count < usize::MAX {
                    m.line_count + 1
                } else {
                    m.line_count
                },
                ..m
            },
            seq![OpView::CodeLine(line, m.line_count > 1)],
        )
    } else if starts_with(t, fence()) {
        let (m1, o1) = flush_paragraph(m);
        let (m2, o2) = flush_table(m1);
        let lang = trim(t.skip(3));
        (
            StreamModel { code_block: true, code_lines: Seq::empty(), lang, line_count: 1, ..m2 },
            o1 + o2 + seq![OpView::OpenCode(fence() + lang)],
        )
    } else if starts_with(t, seq!['|']) {
        let (m1, o1) = flush_paragraph(m);
        (StreamModel { table: m1.table.push(line), ..m1 }, o1)
    } else if t.len() == 0 || horizontal_rule(line) {
        let (m1, o1) = flush_paragraph(m);
        let (m2, o2) = flush_table(m1);
        (m2, if horizontal_rule(line) {
            o1 + o2
        } else {
            o1 + o2 + seq![OpView::Blank]
        })
    } else {
        let (m1, o1) = flush_table(m);
        let p = if m1.paragraph.len() > 0 {
            m1.paragraph + seq!['\n'] + line
        } else {
            line
        };
        (StreamModel { paragraph: p, ..m1 }, o1)
    }
}

/// The effect of a sequence of complete lines, in order.
pub open spec fn stream_lines(m: StreamModel, lines: Seq<Seq<char>>) -> (StreamModel, Seq<OpView>)
    decreases lines.len(),
{
    if lines.len() == 0 {
        (m, Seq::empty())
    } else {
        let (m1, o1) = stream_lines(m, lines.drop_last());
        let (m2, o2) = stream_line(m1, lines.last());
        (m2, o1 + o2)
    }
}

/// Pending groups emitted when the stream stops: the table, the unfinished
/// code block, then the paragraph.
pub open spec fn flush_groups(m: StreamModel) -> (StreamModel, Seq<OpView>) {
    let (m1, o1) = flush_table(m);
    let (m2, o2) = if m1.code_block {
        close_code(m1)
    } else {
        (m1, Seq::empty())
    };
    let (m3, o3) = flush_paragraph(m2);
    (m3, o1 + o2 + o3)
}

impl StreamState {
    fn emit_paragraph(&mut self, ops: &mut Vec<StreamOp>)
        ensures
            final(self).model() == flush_paragraph(old(self).model()).0,
            ops_view(final(ops)@) == ops_view(old(ops)@) + flush_paragraph(old(self).model()).1,
            final(self).buffer == old(self).buffer,
    {
        if self.paragraph.as_str().is_empty() {
            assert(ops_view(ops@) =~= ops_view(ops@) + Seq::<OpView>::empty());
            return ;
        }
        let mut p = String::new();
        std::mem::swap(&mut p, &mut self.paragraph);
        let ghost before = ops@;
        ops.push(StreamOp::Markdown(p));
        assert(ops_view(ops@) =~= ops_view(before) + seq![OpView::Markdown(old(self).paragraph@)]);
    }

    fn emit_table(&mut self, ops: &mut Vec<StreamOp>)
        ensures
            final(self).model() == flush_table(old(self).model()).0,
            ops_view(final(ops)@) == ops_view(old(ops)@) + flush_table(old(self).model()).1,
            final(self).buffer == old(self).buffer,
    {
        if self.table_buffer.len() == 0 {
            assert(ops_view(ops@) =~= ops_view(ops@) + Seq::<OpView>::empty());
            return ;
        }
        let mut t: Vec<String> = Vec::new();
        std::mem::swap(&mut t, &mut self.table_buffer);
        let ghost before = ops@;
        ops.push(StreamOp::Table(t));
        assert(self.model().table =~= Seq::<Seq<char>>::empty());
        assert(ops_view(ops@) =~= ops_view(before) + seq![
            OpView::Table(strings_view(old(self).table_buffer@)),
        ]);
    }

    fn emit_close_code(&mut self, ops: &mut Vec<StreamOp>)
        ensures
            final(self).model() == close_code(old(self).model()).0,
            ops_view(final(ops)@) == ops_view(old(ops)@) + close_code(old(self).model()).1,
            final(self).buffer == old(self).buffer,
    {
        let mut lang = String::new();
        std::mem::swap(&mut lang, &mut self.code_block_lang);
        let mut lines: Vec<String> = Vec::new();
        std::mem::swap(&mut lines, &mut self.code_block_buffer);
        let ghost lv = strings_view(lines@);
        let mut pieces: Vec<Vec<char>> = Vec::new();
        let mut i: usize = 0;
        while i < lines.len()
            invariant
                i <= lines.len(),
                lv == strings_view(lines@),
                pieces@.map_values(|p: Vec<char>| p@) == lv.take(i as int),
            decreases lines.len() - i,
        {
            let ghost before = pieces@.map_values(|p: Vec<char>| p@);
            pieces.push(collect_chars(lines[i].as_str()));
            proof {
                assert(pieces@.map_values(|p: Vec<char>| p@) =~= before.push(lv[i as int]));
                assert(lv.take(i + 1) =~= lv.take(i as int).push(lv[i as int]));
            }
            i = i + 1;
        }
        assert(lv.take(lines.len() as int) =~= lv);
        let mut nl: Vec<char> = Vec::new();
        nl.push('\n');
        let body = join_char_vecs(&pieces, &nl);
        let f = fence_chars();
        let lang_chars = collect_chars(lang.as_str());
        let mut code: Vec<char> = Vec::new();
        push_all(&mut code, &f);
        push_all(&mut code, &lang_chars);
        code.push('\n');
        push_all(&mut code, &body);
        code.push('\n');
        push_all(&mut code, &f);
        assert(nl@ =~= seq!['\n']);
        assert(code@ =~= code_text(lang@, lv));
        let t = trim_chars(&code);
        let render = t.len() > 0;
        let count = self.code_block_line_count;
        self.code_block = false;
        self.code_block_line_count = 0;
        let ghost before = ops@;
        ops.push(StreamOp::CloseCode { code: string_from_chars(&code), line_count: count, render });
        assert(ops_view(ops@) =~= ops_view(before) + close_code(old(self).model()).1);
        assert(self.model().code_lines =~= Seq::<Seq<char>>::empty());
    }

    /// Applies one complete line.
    fn stream_line(&mut self, line: &Vec<char>, ops: &mut Vec<StreamOp>)
        ensures
            final(self).model() == stream_line(old(self).model(), line@).0,
            ops_view(final(ops)@) == ops_view(old(ops)@) + stream_line(old(self).model(), line@).1,
            final(self).buffer == old(self).buffer,
    {
        let ghost m = self.model();
        let t = trim_chars(line);
        let f = fence_chars();
        let is_fence = chars_start_with(&t, &f);
        let is_close = chars_eq(&t, &f) && self.code_block;
        if is_close {
            self.emit_close_code(ops);
        } else if self.code_block {
            let text = string_from_chars(line);
            let unmark = self.code_block_line_count > 1;
            let ghost before = ops@;
            let ghost lines_before = strings_view(self.code_block_buffer@);
            self.code_block_buffer.push(text.clone());
            self.code_block_line_count = self.code_block_line_count.saturating_add(1);
            ops.push(StreamOp::CodeLine { line: text, unmark_previous: unmark });
            assert(strings_view(self.code_block_buffer@) =~= lines_before.push(line@));
            assert(ops_view(ops@) =~= ops_view(before) + seq![OpView::CodeLine(line@, unmark)]);
        } else if is_fence {
            self.emit_paragraph(ops);
            self.emit_table(ops);
            let rest = slice_chars(&t, 3, t.len());
            let lang = trim_chars(&rest);
            assert(rest@ =~= t@.skip(3));
            let mut header: Vec<char> = Vec::new();
            push_all(&mut header, &f);
            push_all(&mut header, &lang);
            self.code_block = true;
            self.code_block_buffer = Vec::new();
            self.code_block_lang = string_from_chars(&lang);
            self.code_block_line_count = 1;
            let ghost before = ops@;
            ops.push(StreamOp::OpenCode(string_from_chars(&header)));
            assert(ops_view(ops@) =~= ops_view(before) + seq![OpView::OpenCode(fence() + lang@)]);
            assert(strings_view(self.code_block_buffer@) =~= Seq::<Seq<char>>::empty());
            proof {
                let (m1, o1) = flush_paragraph(m);
                let (m2, o2) = flush_table(m1);
                assert(ops_view(ops@) =~= ops_view(old(ops)@) + (o1 + o2 + seq![
                    OpView::OpenCode(fence() + lang@),
                ]));
            }
        } else {
            let mut bar: Vec<char> = Vec::new();
            bar.push('|');
            let is_table = chars_start_with(&t, &bar);
            assert(bar@ =~= seq!['|']);
            let text = string_from_chars(line);
            if is_table {
                self.emit_paragraph(ops);
                let ghost tb = strings_view(self.table_buffer@);
                self.table_buffer.push(text);
                assert(strings_view(self.table_buffer@) =~= tb.push(line@));
            } else {
                let is_hr = is_horizontal_rule(text.as_str());
                if t.len() == 0 || is_hr {
                    self.emit_paragraph(ops);
                    self.emit_table(ops);
                    if !is_hr {
                        let ghost before = ops@;
                        ops.push(StreamOp::Blank);
                        assert(ops_view(ops@) =~= ops_view(before) + seq![OpView::Blank]);
                    }
                    proof {
                        let (m1, o1) = flush_paragraph(m);
                        let (m2, o2) = flush_table(m1);
                        if is_hr {
                            assert(ops_view(ops@) =~= ops_view(old(ops)@) + (o1 + o2));
                        } else {
                            assert(ops_view(ops@) =~= ops_view(old(ops)@) + (o1 + o2 + seq![
                                OpView::Blank,
                            ]));
                        }
                    }
                } else {
                    self.emit_table(ops);
                    let ghost old_p = self.paragraph@;
                    let mut p = collect_chars(self.paragraph.as_str());
                    if p.len() > 0 {
                        p.push('\n');
                    }
                    push_all(&mut p, line);
                    assert(p@ =~= if old_p.len() > 0 {
                        old_p + seq!['\n'] + line@
                    } else {
                        line@
                    });
                    self.paragraph = string_from_chars(&p);
                }
            }
        }
    }

    /// Appends a streamed chunk and processes every line it completes.
    pub fn feed(&mut self, text: &str) -> (ops: Vec<StreamOp>)
        ensures
            ({
                let s = old(self).buffer@ + text@;
                let (m, o) = stream_lines(old(self).model(), complete_lines(s));
                &&& final(self).model() == m
                &&& ops_view(ops@) == o
                &&& final(self).buffer@ == line_remainder(s)
            }),
    {
        let mut all = collect_chars(self.buffer.as_str());
        let tail = collect_chars(text);
        push_all(&mut all, &tail);
        let (lines, rem) = split_complete_lines(&all);
        let ghost lv = lines@.map_values(|l: Vec<char>| l@);
        self.buffer = string_from_chars(&rem);
        let mut ops: Vec<StreamOp> = Vec::new();
        let ghost m0 = old(self).model();
        let mut i: usize = 0;
        while i < lines.len()
            invariant
                i <= lines.len(),
                lv == lines@.map_values(|l: Vec<char>| l@),
                self.model() == stream_lines(m0, lv.take(i as int)).0,
                ops_view(ops@) == stream_lines(m0, lv.take(i as int)).1,
                self.buffer@ == rem@,
            decreases lines.len() - i,
        {
            proof {
                assert(lv.take(i + 1).drop_last() =~= lv.take(i as int));
                assert(lv.take(i + 1).last() == lines@[i as int]@);
            }
            self.stream_line(&lines[i], &mut ops);
            i = i + 1;
        }
        assert(lv.take(lines.len() as int) =~= lv);
        ops
    }

    /// Emits the pending table, unfinished code block and paragraph.
    pub fn flush_groups(&mut self) -> (ops: Vec<StreamOp>)
        ensures
            final(self).model() == flush_groups(old(self).model()).0,
            ops_view(ops@) == flush_groups(old(self).model()).1,
            final(self).buffer == old(self).buffer,
    {
        let mut ops: Vec<StreamOp> = Vec::new();
        assert(ops_view(ops@) =~= Seq::<OpView>::empty());
        self.emit_table(&mut ops);
        if self.code_block {
            self.emit_close_code(&mut ops);
        }
        self.emit_paragraph(&mut ops);
        proof {
            let m = old(self).model();
            let (m1, o1) = flush_table(m);
            let (m2, o2) = if m1.code_block {
                close_code(m1)
            } else {
                (m1, Seq::empty())
            };
            let (m3, o3) = flush_paragraph(m2);
            assert(ops_view(ops@) =~= o1 + o2 + o3);
        }
        ops
    }

    /// Takes the incomplete streamed line, if any.
    pub fn take_buffer(&mut self) -> (r: Option<String>)
        ensures
            match r {
                Some(s) => s@ == old(self).buffer@ && s@.len() > 0,
                None => old(self).buffer@.len() == 0,
            },
            final(self).buffer@.len() == 0,
            final(self).model() == old(self).model(),
    {
        if self.buffer.as_str().is_empty() {
            return None;
        }
        let mut b = String::new();
        std::mem::swap(&mut b, &mut self.buffer);
        Some(b)
    }

    /// Emits everything still pending at the end of a reply: the open groups
    /// (table, code block, paragraph, in that order), then the incomplete
    /// last line, if any.
    pub fn flush_all(&mut self) -> (r: (Vec<StreamOp>, Option<String>))
        ensures
            ({
                let (m, b, ops, rest) = flush_all_spec(old(self).model(), old(self).buffer@);
                &&& final(self).model() == m
                &&& final(self).buffer@ == b
                &&& ops_view(r.0@) == ops
                &&& opt_string_view(r.1) == rest
            }),
            flushed(final(self).model()),
            final(self).buffer@.len() == 0,
    {
        let ops = self.flush_groups();
        let rest = self.take_buffer();
        proof {
            lemma_flush_groups_flushed(old(self).model());
        }
        (ops, rest)
    }
}

pub open spec fn opt_string_view(o: Option<String>) -> Option<Seq<char>> {
    match o {
        Some(s) => Some(s@),
        None => None,
    }
}

/// Nothing is pending in the grouping state: no paragraph, no table, no open
/// code block.
pub open spec fn flushed(m: StreamModel) -> bool {
    m.paragraph.len() == 0 && m.table.len() == 0 && !m.code_block
}

/// The end of a reply: the state, buffer, operations and incomplete line
/// after flushing the groups and taking the buffer.
pub open spec fn flush_all_spec(m: StreamModel, buf: Seq<char>) -> (
    StreamModel,
    Seq<char>,
    Seq<OpView>,
    Option<Seq<char>>,
) {
    let (m1, ops) = flush_groups(m);
    (m1, Seq::empty(), ops, if buf.len() > 0 {
        Some(buf)
    } else {
        None
    })
}

proof fn lemma_flush_groups_flushed(m: StreamModel)
    ensures
        flushed(flush_groups(m).0),
{
}

/// Flushing the stream twice is flushing it once: the first flush leaves
/// nothing pending, and the second then emits nothing, gives no line, and
/// changes nothing.
pub proof fn law_flush_idempotent(m: StreamModel, buf: Seq<char>)
    ensures
        ({
            let (m1, b1, _, _) = flush_all_spec(m, buf);
            let (m2, b2, ops2, rest2) = flush_all_spec(m1, b1);
            &&& flushed(m1)
            &&& b1.len() == 0
            &&& m2 == m1
            &&& b2 == b1
            &&& ops2.len() == 0
            &&& rest2 is None
        }),
{
    let m1 = flush_groups(m).0;
    assert(flush_groups(m1).1 =~= Seq::<OpView>::empty());
}

fn fence_chars() -> (v: Vec<char>)
    ensures
        v@ == fence(),
{
    let mut v = Vec::new();
    v.push('`');
    v.push('`');
    v.push('`');
    v
}

// ---------- chunking ----------

proof fn lemma_newline_in_prefix(x: Seq<char>, y: Seq<char>, k: int)
    requires
        0 <= k <= next_newline_from(x, k) < x.len(),
    ensures
        next_newline_from(x + y, k) == next_newline_from(x, k),
    decreases x.len() - k,
{
    assert((x + y)[k] == x[k]);
    if x[k] != '\n' {
        lemma_next_newline_bounds(x, k + 1);
        lemma_newline_in_prefix(x, y, k + 1);
    }
}

proof fn lemma_no_newline_in_prefix(x: Seq<char>, y: Seq<char>, k: int)
    requires
        0 <= k <= x.len(),
        next_newline_from(x, k) >= x.len(),
    ensures
        next_newline_from(x + y, k) == next_newline_from(x + y, x.len() as int),
    decreases x.len() - k,
{
    if k < x.len() {
        assert(x[k] != '\n') by {
            lemma_next_newline_bounds(x, k);
        }
        assert((x + y)[k] == x[k]);
        lemma_no_newline_in_prefix(x, y, k + 1);
    }
}

proof fn lemma_newline_shift(x: Seq<char>, y: Seq<char>, k: int)
    requires
        0 <= k <= y.len(),
    ensures
        next_newline_from(x + y, x.len() + k) == x.len() + next_newline_from(y, k),
    decreases y.len() - k,
{
    if k < y.len() {
        assert((x + y)[x.len() + k] == y[k]);
        if y[k] != '\n' {
            lemma_newline_shift(x, y, k + 1);
        }
    }
}

/// Splitting text into complete lines and a remainder can be done piece by
/// piece: the lines of `x + y` are those of `x`, then those of what `x`
/// leaves over followed by `y`.
proof fn lemma_lines_concat(x: Seq<char>, y: Seq<char>)
    ensures
        complete_lines(x + y) == complete_lines(x) + complete_lines(line_remainder(x) + y),
        line_remainder(x + y) == line_remainder(line_remainder(x) + y),
    decreases x.len(),
{
    let q = next_newline_from(x, 0);
    lemma_next_newline_bounds(x, 0);
    if q < x.len() {
        lemma_newline_in_prefix(x, y, 0);
        let rest = x.skip(q + 1);
        assert((x + y).skip(q + 1) =~= rest + y);
        assert((x + y).take(q) =~= x.take(q));
        lemma_next_newline_bounds(x + y, 0);
        lemma_lines_concat(rest, y);
        assert(complete_lines(x + y) == seq![x.take(q)] + complete_lines(rest + y));
        assert(complete_lines(x) == seq![x.take(q)] + complete_lines(rest));
        assert(seq![x.take(q)] + (complete_lines(rest) + complete_lines(line_remainder(rest) + y)) =~= (seq![
            x.take(q),
        ] + complete_lines(rest)) + complete_lines(line_remainder(rest) + y));
    } else {
        assert(line_remainder(x) == x);
        assert(complete_lines(x) == Seq::<Seq<char>>::empty());
        assert(Seq::<Seq<char>>::empty() + complete_lines(x + y) =~= complete_lines(x + y));
    }
}

/// Processing two runs of lines one after the other is processing them together.
proof fn lemma_stream_lines_concat(m: StreamModel, l1: Seq<Seq<char>>, l2: Seq<Seq<char>>)
    ensures
        stream_lines(m, l1 + l2) == ({
            let (m1, o1) = stream_lines(m, l1);
            let (m2, o2) = stream_lines(m1, l2);
            (m2, o1 + o2)
        }),
    decreases l2.len(),
{
    if l2.len() == 0 {
        assert(l1 + l2 =~= l1);
        let (m1, o1) = stream_lines(m, l1);
        assert(o1 + Seq::<OpView>::empty() =~= o1);
    } else {
        assert((l1 + l2).drop_last() =~= l1 + l2.drop_last());
        assert((l1 + l2).last() == l2.last());
        lemma_stream_lines_concat(m, l1, l2.drop_last());
        let (m1, o1) = stream_lines(m, l1);
        let (ma, oa) = stream_lines(m1, l2.drop_last());
        let (mb, ob) = stream_line(ma, l2.last());
        assert((o1 + oa) + ob =~= o1 + (oa + ob));
    }
}

/// Streamed text is handled the same however it is cut into chunks:
/// feeding `a` and then `b` leaves the state and the buffer that feeding
/// `a + b` at once leaves, and emits the same operations in the same order.
pub proof fn law_stream_chunking(m: StreamModel, buf: Seq<char>, a: Seq<char>, b: Seq<char>)
    ensures
        ({
            let s1 = buf + a;
            let (m1, o1) = stream_lines(m, complete_lines(s1));
            let s2 = line_remainder(s1) + b;
            let (m2, o2) = stream_lines(m1, complete_lines(s2));
            let (mw, ow) = stream_lines(m, complete_lines(buf + (a + b)));
            &&& m2 == mw
            &&& o1 + o2 == ow
            &&& line_remainder(s2) == line_remainder(buf + (a + b))
        }),
{
    let s1 = buf + a;
    assert(buf + (a + b) =~= s1 + b);
    lemma_lines_concat(s1, b);
    lemma_stream_lines_concat(m, complete_lines(s1), complete_lines(line_remainder(s1) + b));
}

} // verus!
