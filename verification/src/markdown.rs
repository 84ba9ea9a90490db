//! Line-level Markdown rules used around the renderer: horizontal rules,
//! tables laid out in aligned columns, and the content lines of code blocks.
use vstd::prelude::*;
use crate::cursor::{char_is_whitespace, is_white_space};
use crate::log_view::fence;
use crate::strutil::{
    chars_eq, chars_start_with, join, push_all, slice_chars, starts_with, trim, trim_chars,
};
use crate::text::{byte_len, collect_chars, str_byte_len, string_from_chars};

verus! {

// ---------- horizontal rules ----------

/// The characters of `s` that are not white space, in order.
pub open spec fn non_ws(s: Seq<char>) -> Seq<char> {
    s.filter(|c: char| !is_white_space(c))
}

/// A Markdown thematic break: after trimming at least 3 bytes, at least 3
/// non-space marks, all the same one of `-`, `*`, `_`.
pub open spec fn horizontal_rule(line: Seq<char>) -> bool {
    let t = trim(line);
    let m = non_ws(t);
    &&& byte_len(t) >= 3
    &&& m.len() >= 3
    &&& (m[0] == '-' || m[0] == '*' || m[0] == '_')
    &&& forall|i: int| 0 <= i < m.len() ==> #[trigger] m[i] == m[0]
}

/// Non-white-space characters of `v`.
fn non_ws_chars(v: &Vec<char>) -> (r: Vec<char>)
    ensures
        r@ == non_ws(v@),
{
    let mut out: Vec<char> = Vec::new();
    let mut i: usize = 0;
    while i < v.len()
        invariant
            i <= v.len(),
            out@ == non_ws(v@.take(i as int)),
        decreases v.len() - i,
    {
        proof {
            assert(v@.take(i + 1) =~= v@.take(i as int).push(v@[i as int]));
            v@.take(i as int).lemma_filter_push(v@[i as int], |c: char| !is_white_space(c));
        }
        if !char_is_whitespace(v[i]) {
            out.push(v[i]);
        }
        i = i + 1;
    }
    assert(v@.take(v@.len() as int) =~= v@);
    out
}

/// Whether `line` is a Markdown horizontal rule (`---`, `***`, `___`, spaces allowed between).
pub fn is_horizontal_rule(line: &str) -> (r: bool)
    ensures
        r == horizontal_rule(line@),
{
    let v = collect_chars(line);
    let t = trim_chars(&v);
    let ts = string_from_chars(&t);
    if str_byte_len(ts.as_str()) < 3 {
        return false;
    }
    let marks = non_ws_chars(&t);
    assert(t@ == trim(line@));
    if marks.len() < 3 {
        return false;
    }
    let first = marks[0];
    if first != '-' && first != '*' && first != '_' {
        return false;
    }
    let mut i: usize = 0;
    while i < marks.len()
        invariant
            i <= marks.len(),
            marks.len() >= 3,
            marks@ == non_ws(trim(line@)),
            first == marks@[0],
            forall|j: int| 0 <= j < i ==> marks@[j] == first,
        decreases marks.len() - i,
    {
        if marks[i] != first {
            proof {
                let m = non_ws(trim(line@));
                assert(m == marks@);
                assert(m[i as int] != m[0]);
                assert(!(forall|j: int| 0 <= j < m.len() ==> #[trigger] m[j] == m[0]));
            }
            return false;
        }
        i = i + 1;
    }
    true
}

// ---------- tables ----------

/// Pieces of `s` between occurrences of `sep` (one more piece than separators).
pub open spec fn split_on(s: Seq<char>, sep: char) -> Seq<Seq<char>>
    decreases s.len(),
{
    if s.len() == 0 {
        seq![Seq::empty()]
    } else {
        let rest = split_on(s.drop_last(), sep);
        if s.last() == sep {
            rest.push(Seq::empty())
        } else {
            rest.update(rest.len() - 1, rest.last().push(s.last()))
        }
    }
}

pub proof fn lemma_split_on_len(s: Seq<char>, sep: char)
    ensures
        split_on(s, sep).len() >= 1,
    decreases s.len(),
{
    if s.len() > 0 {
        lemma_split_on_len(s.drop_last(), sep);
    }
}

/// Cells of a table row: the trimmed pieces between `|`, without the empty
/// pieces a leading or trailing `|` leaves.
pub open spec fn row_cells(line: Seq<char>) -> Seq<Seq<char>> {
    let cells = split_on(line, '|').map_values(|p: Seq<char>| trim(p));
    let a = if cells.len() > 0 && cells[0].len() == 0 {
        cells.drop_first()
    } else {
        cells
    };
    if a.len() > 0 && a.last().len() == 0 {
        a.drop_last()
    } else {
        a
    }
}

/// A separator in front of `t` adds an empty first piece.
proof fn lemma_split_on_lead(sep: char, t: Seq<char>)
    ensures
        split_on(seq![sep] + t, sep) == seq![Seq::<char>::empty()] + split_on(t, sep),
    decreases t.len(),
{
    let u = seq![sep] + t;
    if t.len() == 0 {
        assert(u.drop_last() =~= Seq::<char>::empty());
        assert(u.last() == sep);
        assert(split_on(Seq::<char>::empty(), sep) == seq![Seq::<char>::empty()]);
        assert(t =~= Seq::<char>::empty());
        assert(split_on(u, sep) == seq![Seq::<char>::empty()].push(Seq::<char>::empty()));
        assert(split_on(u, sep) =~= seq![Seq::<char>::empty()] + split_on(t, sep));
    } else {
        assert(u.drop_last() =~= seq![sep] + t.drop_last());
        lemma_split_on_lead(sep, t.drop_last());
        lemma_split_on_len(t.drop_last(), sep);
        let r = split_on(t.drop_last(), sep);
        let e = seq![Seq::<char>::empty()];
        if t.last() == sep {
            assert(split_on(u, sep) =~= e + split_on(t, sep));
        } else {
            assert((e + r).update((e + r).len() - 1, (e + r).last().push(t.last())) =~= e + r.update(
                r.len() - 1,
                r.last().push(t.last()),
            ));
            assert(split_on(u, sep) =~= e + split_on(t, sep));
        }
    }
}

proof fn lemma_trim_empty()
    ensures
        trim(Seq::<char>::empty()).len() == 0,
{
    let s = Seq::<char>::empty();
    crate::cursor::lemma_run_end_bounds(s, 0, crate::strutil::ws_pred());
    crate::cursor::lemma_run_start_bounds(s, 0, crate::strutil::ws_pred());
}

/// A leading and a trailing `|` around a row add no empty column: where the
/// first and last pieces of `inner` between `|` are not blank, the row
/// `|inner|` has the cells of `inner`.
pub proof fn law_outer_pipes_add_no_column(inner: Seq<char>)
    requires
        trim(split_on(inner, '|')[0]).len() > 0,
        trim(split_on(inner, '|').last()).len() > 0,
    ensures
        row_cells(seq!['|'] + inner + seq!['|']) == row_cells(inner),
{
    let outer = seq!['|'] + inner + seq!['|'];
    let lead = seq!['|'] + inner;
    assert(outer.drop_last() =~= lead);
    lemma_split_on_lead('|', inner);
    lemma_split_on_len(inner, '|');
    lemma_trim_empty();
    let p = split_on(inner, '|');
    let e = seq![Seq::<char>::empty()];
    assert(split_on(outer, '|') == (e + p).push(Seq::<char>::empty()));
    let f = |q: Seq<char>| trim(q);
    let c = p.map_values(f);
    let co = split_on(outer, '|').map_values(f);
    assert(co =~= (seq![trim(Seq::<char>::empty())] + c).push(trim(Seq::<char>::empty())));
    assert(co.drop_first().drop_last() =~= c);
    assert(c[0] == trim(p[0]));
    assert(c.last() == trim(p.last()));
}

/// Widest cell (in bytes) of column `i`, over the first `n` rows.
pub open spec fn col_width(rows: Seq<Seq<Seq<char>>>, i: int, n: int) -> nat
    decreases n,
{
    if n <= 0 {
        0
    } else {
        let w = col_width(rows, i, n - 1);
        let row = rows[n - 1];
        if i < row.len() && byte_len(row[i]) > w {
            byte_len(row[i])
        } else {
            w
        }
    }
}

/// `cell` padded with spaces to `width` characters.
pub open spec fn pad(cell: Seq<char>, width: nat) -> Seq<char> {
    if cell.len() >= width {
        cell
    } else {
        cell + Seq::new((width - cell.len()) as nat, |i: int| ' ')
    }
}

/// A separator row: every cell only holds `-`, `:` and white space.
pub open spec fn separator_row(row: Seq<Seq<char>>) -> bool {
    forall|i: int, j: int|
        0 <= i < row.len() && 0 <= j < row[i].len() ==> (row[i][j] == '-' || row[i][j] == ':'
            || is_white_space(row[i][j]))
}

/// A row laid out: `|`, then each cell as ` cell ` padded to its column's width, joined by `|`, then `|`.
pub open spec fn layout_row(rows: Seq<Seq<Seq<char>>>, row: Seq<Seq<char>>) -> Seq<char> {
    seq!['|'] + join(
        Seq::new(
            row.len(),
            |i: int| seq![' '] + pad(row[i], col_width(rows, i, rows.len() as int)) + seq![' '],
        ),
        seq!['|'],
    ) + seq!['|']
}

/// The laid-out rows of a table with the first `n` source lines, separator
/// rows left out; each with whether it is the header (the first source row).
pub open spec fn table_lines(rows: Seq<Seq<Seq<char>>>, n: int) -> Seq<(Seq<char>, bool)>
    decreases n,
{
    if n <= 0 {
        Seq::empty()
    } else {
        let prev = table_lines(rows, n - 1);
        if separator_row(rows[n - 1]) {
            prev
        } else {
            prev.push((layout_row(rows, rows[n - 1]), n - 1 == 0))
        }
    }
}

pub open spec fn table_rows(lines: Seq<Seq<char>>) -> Seq<Seq<Seq<char>>> {
    lines.map_values(|l: Seq<char>| row_cells(l))
}

/// A laid-out table row and whether it is the header row.
pub struct TableLine {
    pub text: String,
    pub header: bool,
}

/// Pieces of `v` between `sep` characters.
pub fn split_chars(v: &Vec<char>, sep: char) -> (r: Vec<Vec<char>>)
    ensures
        r@.map_values(|p: Vec<char>| p@) == split_on(v@, sep),
{
    let mut out: Vec<Vec<char>> = Vec::new();
    let mut cur: Vec<char> = Vec::new();
    let mut i: usize = 0;
    while i < v.len()
        invariant
            i <= v.len(),
            out@.map_values(|p: Vec<char>| p@).push(cur@) == split_on(v@.take(i as int), sep),
        decreases v.len() - i,
    {
        let ghost prev_out = out@.map_values(|p: Vec<char>| p@);
        let ghost prev_cur = cur@;
        proof {
            assert(v@.take(i + 1).drop_last() =~= v@.take(i as int));
            lemma_split_on_len(v@.take(i as int), sep);
        }
        if v[i] == sep {
            out.push(cur);
            cur = Vec::new();
            proof {
                assert(out@.map_values(|p: Vec<char>| p@) =~= prev_out.push(prev_cur));
                assert(out@.map_values(|p: Vec<char>| p@).push(cur@) =~= prev_out.push(
                    prev_cur,
                ).push(Seq::empty()));
            }
        } else {
            cur.push(v[i]);
            proof {
                let full = prev_out.push(prev_cur);
                assert(prev_out.push(cur@) =~= full.update(full.len() - 1, full.last().push(
                    v@[i as int],
                )));
            }
        }
        i = i + 1;
    }
    out.push(cur);
    assert(v@.take(v@.len() as int) =~= v@);
    out
}

/// Cells of one table row.
fn row_cells_exec(line: &String) -> (r: Vec<Vec<char>>)
    ensures
        r@.map_values(|p: Vec<char>| p@) == row_cells(line@),
{
    let v = collect_chars(line.as_str());
    let pieces = split_chars(&v, '|');
    let ghost pv = pieces@.map_values(|p: Vec<char>| p@);
    let mut cells: Vec<Vec<char>> = Vec::new();
    let mut i: usize = 0;
    while i < pieces.len()
        invariant
            i <= pieces.len(),
            pv == pieces@.map_values(|p: Vec<char>| p@),
            cells@.map_values(|p: Vec<char>| p@) == pv.take(i as int).map_values(
                |p: Seq<char>| trim(p),
            ),
        decreases pieces.len() - i,
    {
        let t = trim_chars(&pieces[i]);
        let ghost before = cells@.map_values(|p: Vec<char>| p@);
        cells.push(t);
        proof {
            assert(pv[i as int] == pieces@[i as int]@);
            assert(cells@.map_values(|p: Vec<char>| p@) =~= before.push(trim(pv[i as int])));
            assert(pv.take(i + 1).map_values(|p: Seq<char>| trim(p)) =~= pv.take(
                i as int,
            ).map_values(|p: Seq<char>| trim(p)).push(trim(pv[i as int])));
        }
        i = i + 1;
    }
    assert(pv.take(pieces.len() as int) =~= pv);
    let ghost all = cells@.map_values(|p: Vec<char>| p@);
    if cells.len() > 0 && cells[0].len() == 0 {
        cells.remove(0);
        assert(cells@.map_values(|p: Vec<char>| p@) =~= all.drop_first());
    }
    let ghost mid = cells@.map_values(|p: Vec<char>| p@);
    if cells.len() > 0 && cells[cells.len() - 1].len() == 0 {
        cells.pop();
        assert(cells@.map_values(|p: Vec<char>| p@) =~= mid.drop_last());
    }
    cells
}

proof fn lemma_col_width_zero(rows: Seq<Seq<Seq<char>>>, i: int, n: int)
    requires
        0 <= n <= rows.len(),
        forall|j: int| 0 <= j < n ==> rows[j].len() <= i,
    ensures
        col_width(rows, i, n) == 0,
    decreases n,
{
    if n > 0 {
        lemma_col_width_zero(rows, i, n - 1);
    }
}

/// Byte length of a character sequence.
fn chars_byte_len(v: &Vec<char>) -> (n: usize)
    ensures
        n == byte_len(v@),
{
    let s = string_from_chars(v);
    str_byte_len(s.as_str())
}

/// Widths of all columns over all rows.
fn column_widths(rows: &Vec<Vec<Vec<char>>>) -> (w: Vec<usize>)
    ensures
        forall|j: int|
            0 <= j < rows@.len() ==> #[trigger] rows@[j]@.len() <= w@.len(),
        forall|i: int|
            0 <= i < w@.len() ==> w@[i] == col_width(
                cells_view(rows@),
                i,
                rows@.len() as int,
            ),
{
    let ghost rv = cells_view(rows@);
    let mut w: Vec<usize> = Vec::new();
    let mut r: usize = 0;
    while r < rows.len()
        invariant
            r <= rows.len(),
            rv == cells_view(rows@),
            rv.len() == rows@.len(),
            forall|j: int| 0 <= j < r ==> #[trigger] rows@[j]@.len() <= w@.len(),
            forall|i: int| 0 <= i < w@.len() ==> w@[i] == col_width(rv, i, r as int),
        decreases rows.len() - r,
    {
        let row = &rows[r];
        assert(rv[r as int] =~= row@.map_values(|c: Vec<char>| c@));
        let ghost w0 = w@;
        while w.len() < row.len()
            invariant
                w0.len() <= w@.len(),
                w@.len() <= row.len() || w@.len() == w0.len(),
                forall|i: int| 0 <= i < w0.len() ==> w@[i] == w0[i],
                forall|i: int| w0.len() <= i < w@.len() ==> w@[i] == 0,
            decreases row.len() - w.len(),
        {
            w.push(0);
        }
        proof {
            assert forall|j: int| 0 <= j < w@.len() implies w@[j] == col_width(rv, j, r as int) by {
                if j >= w0.len() {
                    lemma_col_width_zero(rv, j, r as int);
                }
            }
        }
        let ghost w1 = w@;
        let mut i: usize = 0;
        while i < w.len()
            invariant
                i <= w@.len(),
                w@.len() == w1.len(),
                w@.len() >= row@.len(),
                w1.len() >= w0.len(),
                rv == cells_view(rows@),
                rv[r as int] =~= row@.map_values(|c: Vec<char>| c@),
                r < rows@.len(),
                forall|j: int| 0 <= j < i ==> w@[j] == col_width(rv, j, r + 1),
                forall|j: int|
                    i <= j < w@.len() ==> w@[j] == col_width(rv, j, r as int),
            decreases w.len() - i,
        {
            if i < row.len() {
                let b = chars_byte_len(&row[i]);
                if b > w[i] {
                    w.set(i, b);
                }
            }
            i = i + 1;
        }
        r = r + 1;
    }
    w
}

pub open spec fn cells_view(rows: Seq<Vec<Vec<char>>>) -> Seq<Seq<Seq<char>>> {
    rows.map_values(|row: Vec<Vec<char>>| row@.map_values(|c: Vec<char>| c@))
}

fn is_separator_row(row: &Vec<Vec<char>>) -> (r: bool)
    ensures
        r == separator_row(row@.map_values(|c: Vec<char>| c@)),
{
    let ghost rv = row@.map_values(|c: Vec<char>| c@);
    let mut i: usize = 0;
    while i < row.len()
        invariant
            i <= row.len(),
            rv == row@.map_values(|c: Vec<char>| c@),
            forall|a: int, b: int|
                0 <= a < i && 0 <= b < rv[a].len() ==> (rv[a][b] == '-' || rv[a][b] == ':'
                    || is_white_space(rv[a][b])),
        decreases row.len() - i,
    {
        let cell = &row[i];
        assert(rv[i as int] == cell@);
        let mut j: usize = 0;
        while j < cell.len()
            invariant
                j <= cell.len(),
                i < row.len(),
                rv == row@.map_values(|c: Vec<char>| c@),
                rv[i as int] == cell@,
                forall|a: int, b: int|
                    0 <= a < i && 0 <= b < rv[a].len() ==> (rv[a][b] == '-' || rv[a][b] == ':'
                        || is_white_space(rv[a][b])),
                forall|b: int|
                    0 <= b < j ==> (cell@[b] == '-' || cell@[b] == ':' || is_white_space(
                        cell@[b],
                    )),
            decreases cell.len() - j,
        {
            let ch = cell[j];
            if !(ch == '-' || ch == ':' || char_is_whitespace(ch)) {
                assert(rv[i as int][j as int] == ch);
                return false;
            }
            j = j + 1;
        }
        i = i + 1;
    }
    true
}

/// ` cell ` padded to `width` characters.
fn padded_cell(cell: &Vec<char>, width: usize) -> (r: Vec<char>)
    ensures
        r@ == seq![' '] + pad(cell@, width as nat) + seq![' '],
{
    let mut out: Vec<char> = Vec::new();
    out.push(' ');
    push_all(&mut out, cell);
    let mut k = cell.len();
    let ghost base = out@;
    while k < width
        invariant
            cell.len() <= k <= width || (k == cell.len() && cell.len() >= width),
            base == seq![' '] + cell@,
            out@ == base + Seq::new((k - cell.len()) as nat, |i: int| ' '),
        decreases width - k,
    {
        out.push(' ');
        proof {
            assert(out@ =~= base + Seq::new((k + 1 - cell.len()) as nat, |i: int| ' '));
        }
        k = k + 1;
    }
    out.push(' ');
    proof {
        if cell.len() >= width {
            assert(out@ =~= seq![' '] + cell@ + seq![' ']);
        } else {
            assert(out@ =~= seq![' '] + pad(cell@, width as nat) + seq![' ']);
        }
    }
    out
}

/// Lays out one row with the given column widths.
fn layout_row_exec(row: &Vec<Vec<char>>, widths: &Vec<usize>, Ghost(rows): Ghost<Seq<Seq<Seq<char>>>>) -> (r: Vec<char>)
    requires
        row.len() <= widths.len(),
        forall|i: int| 0 <= i < widths.len() ==> widths@[i] == col_width(rows, i, rows.len() as int),
    ensures
        r@ == layout_row(rows, row@.map_values(|c: Vec<char>| c@)),
{
    let ghost rv = row@.map_values(|c: Vec<char>| c@);
    let mut pieces: Vec<Vec<char>> = Vec::new();
    let mut i: usize = 0;
    while i < row.len()
        invariant
            i <= row.len() <= widths.len(),
            rv == row@.map_values(|c: Vec<char>| c@),
            forall|k: int| 0 <= k < widths.len() ==> widths@[k] == col_width(rows, k, rows.len() as int),
            pieces@.len() == i,
            forall|k: int| 0 <= k < i ==> #[trigger] pieces@[k]@ == seq![' '] + pad(rv[k], col_width(rows, k, rows.len() as int)) + seq![' '],
        decreases row.len() - i,
    {
        let p = padded_cell(&row[i], widths[i]);
        assert(rv[i as int] == row@[i as int]@);
        pieces.push(p);
        i = i + 1;
    }
    let ghost spec_pieces = Seq::new(
        rv.len(),
        |k: int| seq![' '] + pad(rv[k], col_width(rows, k, rows.len() as int)) + seq![' '],
    );
    assert(pieces@.map_values(|p: Vec<char>| p@) =~= spec_pieces);
    let mut bar: Vec<char> = Vec::new();
    bar.push('|');
    let joined = crate::strutil::join_char_vecs(&pieces, &bar);
    let mut out: Vec<char> = Vec::new();
    out.push('|');
    push_all(&mut out, &joined);
    out.push('|');
    assert(bar@ =~= seq!['|']);
    assert(out@ =~= seq!['|'] + joined@ + seq!['|']);
    out
}

/// Lays out Markdown table lines in aligned columns; separator rows are left
/// out and the first source row is marked as the header.
pub fn format_table(lines: &Vec<String>) -> (r: Vec<TableLine>)
    ensures
        r@.map_values(|t: TableLine| (t.text@, t.header)) == table_lines(
            table_rows(lines@.map_values(|l: String| l@)),
            lines@.len() as int,
        ),
{
    let ghost lv = lines@.map_values(|l: String| l@);
    let ghost trows = table_rows(lv);
    let mut rows: Vec<Vec<Vec<char>>> = Vec::new();
    let mut i: usize = 0;
    while i < lines.len()
        invariant
            i <= lines.len(),
            lv == lines@.map_values(|l: String| l@),
            trows == table_rows(lv),
            cells_view(rows@) == trows.take(i as int),
        decreases lines.len() - i,
    {
        let cells = row_cells_exec(&lines[i]);
        let ghost before = cells_view(rows@);
        rows.push(cells);
        proof {
            assert(lv[i as int] == lines@[i as int]@);
            assert(cells_view(rows@) =~= before.push(trows[i as int]));
            assert(trows.take(i + 1) =~= trows.take(i as int).push(trows[i as int]));
        }
        i = i + 1;
    }
    assert(trows.take(lines.len() as int) =~= trows);
    let mut out: Vec<TableLine> = Vec::new();
    if rows.len() == 0 {
        return out;
    }
    let widths = column_widths(&rows);
    let mut r: usize = 0;
    while r < rows.len()
        invariant
            r <= rows.len(),
            cells_view(rows@) == trows,
            trows.len() == rows@.len(),
            forall|j: int| 0 <= j < rows@.len() ==> #[trigger] rows@[j]@.len() <= widths@.len(),
            forall|k: int| 0 <= k < widths@.len() ==> widths@[k] == col_width(trows, k, trows.len() as int),
            out@.map_values(|t: TableLine| (t.text@, t.header)) == table_lines(trows, r as int),
        decreases rows.len() - r,
    {
        let row = &rows[r];
        assert(trows[r as int] == row@.map_values(|c: Vec<char>| c@));
        assert(row@.len() <= widths@.len());
        let ghost before = out@.map_values(|t: TableLine| (t.text@, t.header));
        if !is_separator_row(row) {
            let text_chars = layout_row_exec(row, &widths, Ghost(trows));
            let text = string_from_chars(&text_chars);
            out.push(TableLine { text, header: r == 0 });
            assert(out@.map_values(|t: TableLine| (t.text@, t.header)) =~= before.push(
                (layout_row(trows, trows[r as int]), r == 0),
            ));
        }
        r = r + 1;
    }
    out
}

// ---------- code block content ----------

/// First index at or after `j` whose trimmed text is exactly a fence, or the length.
pub open spec fn first_close_from(raw: Seq<Seq<char>>, j: int) -> int
    decreases raw.len() - j,
{
    if j >= raw.len() || j < 0 {
        raw.len() as int
    } else if trim(raw[j]) == fence() {
        j
    } else {
        first_close_from(raw, j + 1)
    }
}

/// Ranges `(first, end)` of the content lines of the code blocks found from index `i`:
/// a line starting (after trimming) with a fence opens a block that the next
/// bare fence closes; an opening fence without a closing one is skipped.
pub open spec fn code_ranges_from(raw: Seq<Seq<char>>, i: int) -> Seq<(usize, usize)>
    decreases raw.len() - i,
{
    if i >= raw.len() || i < 0 {
        Seq::empty()
    } else if starts_with(trim(raw[i]), fence()) {
        let e = first_close_from(raw, i + 1);
        proof {
            lemma_first_close_bounds(raw, i + 1);
        }
        if e < raw.len() {
            seq![((i + 1) as usize, e as usize)] + code_ranges_from(raw, e + 1)
        } else {
            code_ranges_from(raw, i + 1)
        }
    } else {
        code_ranges_from(raw, i + 1)
    }
}

pub proof fn lemma_first_close_bounds(raw: Seq<Seq<char>>, j: int)
    requires
        0 <= j,
    ensures
        j <= first_close_from(raw, j) <= raw.len() || (j > raw.len() && first_close_from(raw, j)
            == raw.len()),
    decreases raw.len() - j,
{
    if j < raw.len() && trim(raw[j]) != fence() {
        lemma_first_close_bounds(raw, j + 1);
    }
}

fn fence_vec() -> (v: Vec<char>)
    ensures
        v@ == fence(),
{
    let mut v = Vec::new();
    v.push('`');
    v.push('`');
    v.push('`');
    v
}

/// Content-line ranges of the code blocks of rendered lines (the lines to shade).
pub fn code_content_ranges(raw: &Vec<String>) -> (r: Vec<(usize, usize)>)
    ensures
        r@ == code_ranges_from(raw@.map_values(|l: String| l@), 0),
{
    let ghost rv = raw@.map_values(|l: String| l@);
    let f = fence_vec();
    let mut out: Vec<(usize, usize)> = Vec::new();
    let mut i: usize = 0;
    while i < raw.len()
        invariant
            i <= raw.len(),
            rv == raw@.map_values(|l: String| l@),
            f@ == fence(),
            out@ + code_ranges_from(rv, i as int) == code_ranges_from(rv, 0),
        decreases raw.len() - i,
    {
        let line = collect_chars(raw[i].as_str());
        let t = trim_chars(&line);
        assert(rv[i as int] == raw@[i as int]@);
        if chars_start_with(&t, &f) {
            let mut j = i + 1;
            let mut found = false;
            while j < raw.len()
                invariant_except_break
                    i < j <= raw.len(),
                    first_close_from(rv, j as int) == first_close_from(rv, i + 1),
                    !found,
                invariant
                    rv == raw@.map_values(|l: String| l@),
                    f@ == fence(),
                    i < raw.len(),
                ensures
                    found ==> i < j < raw.len() && first_close_from(rv, i + 1) == j,
                    !found ==> first_close_from(rv, i + 1) == raw.len(),
                decreases raw.len() - j,
            {
                let lj = collect_chars(raw[j].as_str());
                let tj = trim_chars(&lj);
                assert(rv[j as int] == raw@[j as int]@);
                if chars_eq(&tj, &f) {
                    found = true;
                    break;
                }
                j = j + 1;
            }
            if found {
                let ghost before = out@;
                out.push((i + 1, j));
                proof {
                    assert(out@ + code_ranges_from(rv, j + 1) =~= before + (seq![((i + 1) as usize, j as usize)] + code_ranges_from(rv, j + 1)));
                }
                i = j + 1;
                continue;
            }
        }
        i = i + 1;
    }
    assert(out@ + code_ranges_from(rv, i as int) =~= out@);
    out
}

} // verus!
