//! Layout of tables: column widths, padded and aligned rows, box borders.
use vstd::prelude::*;
use crate::parsing::CellAlignment;
use crate::render_model::{column_count, column_width, column_widths, cell_width, cell_piece,
    row_cells, row_line, border_piece, border_segments, border_line, join_cells, chunks_from,
    cell_lines, virtual_row, row_height, row_block, boxed_rows, boxed_table, span, shared_widths,
    entry_line, entry_lines, flat_rows, flat_lines};
use crate::rendering::{char_views, row_views, lemma_char_views_push};
use crate::text::push_chars;
use crate::textops::{repeat, display_width_of, push_repeat, strip_ansi_of, char_display_width, display_width,
    char_width, sat};

use crate::paragraphs::{no_escape, lemma_plain_closed, lemma_closed_concat, lemma_code_closed};
use crate::render_model::{esc_bold, esc_bold_off, esc_italic, esc_italic_off};

verus! {

/// Column widths as mathematical integers.
pub open spec fn nat_views(v: Seq<usize>) -> Seq<nat> {
    v.map_values(|x: usize| x as nat)
}

/// No row has more cells than the column count.
pub proof fn lemma_column_count_bound(rows: Seq<Seq<Seq<char>>>, k: int)
    requires
        0 <= k < rows.len(),
    ensures
        rows[k].len() <= column_count(rows),
    decreases rows.len(),
{
    if k < rows.len() - 1 {
        lemma_column_count_bound(rows.drop_last(), k);
    }
}

/// The largest number of cells in a row.
pub fn column_count_of(rows: &Vec<Vec<Vec<char>>>) -> (r: usize)
    ensures
        r == column_count(row_views(rows@)),
{
    let ghost rv = row_views(rows@);
    let mut r: usize = 0;
    let mut k: usize = 0;
    while k < rows.len()
        invariant
            k <= rows.len(),
            rv == row_views(rows@),
            r == column_count(rv.take(k as int)),
        decreases rows.len() - k,
    {
        assert(rv.take(k + 1).drop_last() =~= rv.take(k as int));
        assert(rv.take(k + 1).last() == char_views(rows@[k as int]@));
        if rows[k].len() > r {
            r = rows[k].len();
        }
        k = k + 1;
    }
    assert(rv.take(rows.len() as int) =~= rv);
    r
}

/// The width of every column: its widest cell, and at least 3.
pub fn column_widths_of(rows: &Vec<Vec<Vec<char>>>) -> (r: Vec<usize>)
    ensures
        nat_views(r@) == column_widths(row_views(rows@)),
{
    let ghost rv = row_views(rows@);
    let count = column_count_of(rows);
    let mut widths: Vec<usize> = Vec::new();
    let mut i: usize = 0;
    while i < count
        invariant
            i <= count,
            widths.len() == i,
            forall|j: int| 0 <= j < i ==> widths[j] == 3,
        decreases count - i,
    {
        widths.push(3);
        i = i + 1;
    }
    let mut k: usize = 0;
    while k < rows.len()
        invariant
            k <= rows.len(),
            rv == row_views(rows@),
            count == column_count(rv),
            widths.len() == count,
            forall|j: int| 0 <= j < count ==> widths[j] == column_width(rv.take(k as int), j),
        decreases rows.len() - k,
    {
        proof { lemma_column_count_bound(rv, k as int); }
        let row = &rows[k];
        let ghost tk = rv.take(k as int);
        let ghost tk1 = rv.take(k + 1);
        assert(tk1.drop_last() =~= tk);
        assert(tk1.last() == char_views(row@));
        let mut j: usize = 0;
        while j < row.len()
            invariant
                j <= row.len(),
                row.len() <= count,
                widths.len() == count,
                tk1.drop_last() == tk,
                tk1.len() > 0,
                tk1.last() == char_views(row@),
                forall|m: int| 0 <= m < j ==> widths[m] == column_width(tk1, m),
                forall|m: int| j <= m < count ==> widths[m] == column_width(tk, m),
            decreases row.len() - j,
        {
            let w = display_width_of(&strip_ansi_of(&row[j]));
            assert(tk1.last()[j as int] == row@[j as int]@);
            assert(tk1.last().len() == row.len());
            assert(column_width(tk1, j as int) == (if w > column_width(tk, j as int) {
                w as nat
            } else {
                column_width(tk, j as int)
            }));
            if w > widths[j] {
                widths.set(j, w);
            }
            j = j + 1;
        }
        assert forall|m: int| 0 <= m < count implies widths[m] == column_width(tk1, m) by {
            if m >= row.len() {
                assert(column_width(tk1, m) == column_width(tk, m));
            }
        }
        k = k + 1;
    }
    assert(rv.take(rows.len() as int) =~= rv);
    assert(nat_views(widths@) =~= column_widths(rv));
    widths
}

/// Appends cell `i` of a row, padded to its column width and aligned.
#[verifier::rlimit(100)]
#[verifier::spinoff_prover]
fn push_cell_piece(out: &mut Vec<char>, aligns: &Vec<CellAlignment>, row: &Vec<Vec<char>>,
    widths: &Vec<usize>, i: usize, empty: &Vec<char>)
    requires
        i < widths.len(),
        empty@ == Seq::<char>::empty(),
    ensures
        final(out)@ == old(out)@ + cell_piece(aligns@, char_views(row@), nat_views(widths@), i as int),
{
    let ghost rw = char_views(row@);
    let ghost ws = nat_views(widths@);
    let cell: &Vec<char> = if i < row.len() { &row[i] } else { empty };
    assert(cell@ == (if 0 <= i < rw.len() { rw[i as int] } else { Seq::empty() }));
    let cw = display_width_of(&strip_ansi_of(cell));
    let pad = if widths[i] > cw { widths[i] - cw } else { 0 };
    assert(ws[i as int] == widths[i as int]);
    let align = if i < aligns.len() { aligns[i] } else { CellAlignment::Left };
    let (left, right): (usize, usize) = match align {
        CellAlignment::Right => (pad, 0),
        CellAlignment::Center => (pad / 2, pad - pad / 2),
        _ => (0, pad),
    };
    out.push(' ');
    push_repeat(out, ' ', left);
    push_chars(out, cell);
    push_repeat(out, ' ', right);
    out.push(' ');
    out.push('│');
    assert(out@ =~= old(out)@ + cell_piece(aligns@, rw, ws, i as int));
}

/// A table row: each cell padded to its column width and aligned, between
/// column bars.
pub fn row_line_of(aligns: &Vec<CellAlignment>, row: &Vec<Vec<char>>, widths: &Vec<usize>) -> (r: Vec<char>)
    ensures
        r@ == row_line(aligns@, char_views(row@), nat_views(widths@)),
{
    let ghost a = aligns@;
    let ghost rw = char_views(row@);
    let ghost ws = nat_views(widths@);
    let empty: Vec<char> = Vec::new();
    let mut out: Vec<char> = Vec::new();
    out.push('│');
    assert(out@ + row_cells(a, rw, ws, 0) =~= row_line(a, rw, ws));
    let mut i: usize = 0;
    while i < widths.len()
        invariant
            i <= widths.len(),
            ws == nat_views(widths@),
            rw == char_views(row@),
            a == aligns@,
            empty@ == Seq::<char>::empty(),
            out@ + row_cells(a, rw, ws, i as int) == row_line(a, rw, ws),
        decreases widths.len() - i,
    {
        let ghost before = out@;
        push_cell_piece(&mut out, aligns, row, widths, i, &empty);
        assert(row_cells(a, rw, ws, i as int) == cell_piece(a, rw, ws, i as int) + row_cells(a, rw, ws, i + 1));
        assert(before + row_cells(a, rw, ws, i as int) =~= out@ + row_cells(a, rw, ws, i + 1));
        i = i + 1;
    }
    assert(row_cells(a, rw, ws, widths.len() as int) =~= Seq::<char>::empty());
    assert(out@ + Seq::<char>::empty() =~= out@);
    out
}

/// A table border: `left`, a horizontal segment per column joined by
/// `junction`, and `right`.
pub fn border_line_of(left: char, junction: char, right: char, widths: &Vec<usize>) -> (r: Vec<char>)
    ensures
        r@ == border_line(left, junction, right, nat_views(widths@)),
{
    let ghost ws = nat_views(widths@);
    let mut out: Vec<char> = Vec::new();
    out.push(left);
    let mut i: usize = 0;
    while i < widths.len()
        invariant
            i <= widths.len(),
            ws == nat_views(widths@),
            out@ + border_segments(junction, ws, i as int) == seq![left] + border_segments(junction, ws, 0),
        decreases widths.len() - i,
    {
        let ghost before = out@;
        push_repeat(&mut out, '─', widths[i].saturating_add(2));
        if i + 1 < widths.len() {
            out.push(junction);
        }
        assert(out@ =~= before + border_piece(junction, ws, i as int));
        assert(border_segments(junction, ws, i as int) == border_piece(junction, ws, i as int)
            + border_segments(junction, ws, i + 1));
        assert(before + border_segments(junction, ws, i as int) =~= out@ + border_segments(junction, ws, i + 1));
        i = i + 1;
    }
    assert(border_segments(junction, ws, widths.len() as int) =~= Seq::<char>::empty());
    out.push(right);
    assert(out@ =~= border_line(left, junction, right, ws));
    out
}

/// The cells of a row joined by two spaces.
pub fn join_cells_of(row: &Vec<Vec<char>>) -> (r: Vec<char>)
    ensures
        r@ == join_cells(char_views(row@)),
{
    let ghost rw = char_views(row@);
    let mut out: Vec<char> = Vec::new();
    let mut k: usize = 0;
    while k < row.len()
        invariant
            k <= row.len(),
            rw == char_views(row@),
            out@ == join_cells(rw.take(k as int)),
        decreases row.len() - k,
    {
        assert(rw.take(k + 1).drop_last() =~= rw.take(k as int));
        assert(rw.take(k + 1).last() == row@[k as int]@);
        if k > 0 {
            out.push(' ');
            out.push(' ');
        }
        push_chars(&mut out, &row[k]);
        assert(k == 0 ==> out@ =~= rw.take(1)[0]);
        k = k + 1;
    }
    assert(rw.take(row.len() as int) =~= rw);
    out
}

/// A copy of `v`.
fn copy_chars(v: &Vec<char>) -> (r: Vec<char>)
    ensures
        r@ == v@,
{
    let mut r: Vec<char> = Vec::new();
    push_chars(&mut r, v);
    r
}

/// The pieces of `t`, each filled greedily up to display width `w`.
pub fn chunks_of(t: &Vec<char>, w: usize) -> (r: Vec<Vec<char>>)
    ensures
        char_views(r@) == chunks_from(t@, w as nat, 0, Seq::empty(), Seq::empty()),
{
    let mut acc: Vec<Vec<char>> = Vec::new();
    let mut cur: Vec<char> = Vec::new();
    let mut cur_w: usize = 0;
    let mut i: usize = 0;
    assert(char_views(acc@) =~= Seq::<Seq<char>>::empty());
    while i < t.len()
        invariant
            i <= t.len(),
            cur_w == display_width(cur@),
            cur_w <= w || cur_w <= 2,
            cur@.len() == 0 ==> cur_w == 0,
            chunks_from(t@, w as nat, i as int, cur@, char_views(acc@))
                == chunks_from(t@, w as nat, 0, Seq::empty(), Seq::empty()),
        decreases t.len() - i,
    {
        let c = t[i];
        let cw = char_display_width(c);
        assert(cw <= 2);
        if cur.len() > 0 && (cur_w > w || cw > w - cur_w) {
            let mut next: Vec<char> = Vec::new();
            next.push(c);
            std::mem::swap(&mut next, &mut cur);
            proof { lemma_char_views_push(acc@, next); }
            acc.push(next);
            assert(cur@ =~= seq![c]);
            assert(cur@.drop_last() =~= Seq::<char>::empty());
            assert(display_width(cur@) == display_width(cur@.drop_last()) + char_width(cur@.last()));
            cur_w = cw;
        } else {
            let ghost old_cur = cur@;
            cur.push(c);
            assert(cur@.drop_last() =~= old_cur);
            assert(cur@.last() == c);
            assert(display_width(cur@) == display_width(cur@.drop_last()) + char_width(cur@.last()));
            cur_w = cur_w + cw;
        }
        i = i + 1;
    }
    if cur.len() > 0 {
        proof { lemma_char_views_push(acc@, cur); }
        acc.push(cur);
    }
    acc
}

/// The lines of a cell in a column `w` wide.
pub fn cell_lines_of(cell: &Vec<char>, w: usize) -> (r: Vec<Vec<char>>)
    ensures
        char_views(r@) == cell_lines(cell@, w as nat),
{
    let visible = strip_ansi_of(cell);
    if display_width_of(&visible) <= w {
        let mut r: Vec<Vec<char>> = Vec::new();
        let c = copy_chars(cell);
        r.push(c);
        assert(char_views(r@) =~= seq![cell@]);
        r
    } else {
        chunks_of(&visible, w)
    }
}

/// The width of column `i`, or 3 past the last column.
fn width_at(widths: &Vec<usize>, i: usize) -> (r: usize)
    ensures
        r == (if i < widths.len() { nat_views(widths@)[i as int] } else { 3 }),
{
    if i < widths.len() { widths[i] } else { 3 }
}

/// The lines of one table row, its cells wrapped within their columns.
#[verifier::rlimit(100)]
#[verifier::spinoff_prover]
pub fn row_block_of(aligns: &Vec<CellAlignment>, row: &Vec<Vec<char>>, widths: &Vec<usize>) -> (r: Vec<Vec<char>>)
    ensures
        char_views(r@) == row_block(aligns@, char_views(row@), nat_views(widths@)),
{
    let ghost rw = char_views(row@);
    let ghost ws = nat_views(widths@);
    let mut per_cell: Vec<Vec<Vec<char>>> = Vec::new();
    let mut height: usize = 1;
    let mut i: usize = 0;
    while i < row.len()
        invariant
            i <= row.len(),
            rw == char_views(row@),
            ws == nat_views(widths@),
            per_cell@.len() == i,
            forall|j: int| 0 <= j < i ==> #[trigger] char_views(per_cell@[j]@) == cell_lines(
                rw[j],
                if j < ws.len() { ws[j] } else { 3 },
            ),
            height == row_height(rw.take(i as int), ws),
        decreases row.len() - i,
    {
        let w = width_at(widths, i);
        let ls = cell_lines_of(&row[i], w);
        assert(rw.take(i + 1).drop_last() =~= rw.take(i as int));
        assert(rw.take(i + 1).last() == rw[i as int]);
        assert(char_views(ls@).len() == ls@.len());
        if ls.len() > height {
            height = ls.len();
        }
        per_cell.push(ls);
        i = i + 1;
    }
    assert(rw.take(row.len() as int) =~= rw);
    let mut out: Vec<Vec<char>> = Vec::new();
    let mut r: usize = 0;
    while r < height
        invariant
            r <= height,
            height == row_height(rw, ws),
            rw == char_views(row@),
            ws == nat_views(widths@),
            per_cell@.len() == row.len(),
            forall|j: int| 0 <= j < row.len() ==> #[trigger] char_views(per_cell@[j]@) == cell_lines(
                rw[j],
                if j < ws.len() { ws[j] } else { 3 },
            ),
            char_views(out@) == row_block(aligns@, rw, ws).take(r as int),
        decreases height - r,
    {
        let mut vr: Vec<Vec<char>> = Vec::new();
        let mut j: usize = 0;
        while j < row.len()
            invariant
                j <= row.len(),
                rw == char_views(row@),
                ws == nat_views(widths@),
                per_cell@.len() == row.len(),
                forall|k: int| 0 <= k < row.len() ==> #[trigger] char_views(per_cell@[k]@) == cell_lines(
                    rw[k],
                    if k < ws.len() { ws[k] } else { 3 },
                ),
                char_views(vr@) == virtual_row(rw, ws, r as int).take(j as int),
            decreases row.len() - j,
        {
            let cell = if r < per_cell[j].len() {
                copy_chars(&per_cell[j][r])
            } else {
                Vec::new()
            };
            proof {
                let ls = char_views(per_cell@[j as int]@);
                assert(ls == cell_lines(rw[j as int], if j < ws.len() { ws[j as int] } else { 3 }));
                assert(ls.len() == per_cell@[j as int]@.len());
                if r < per_cell@[j as int]@.len() {
                    assert(ls[r as int] == per_cell@[j as int]@[r as int]@);
                }
                assert(cell@ == virtual_row(rw, ws, r as int)[j as int]);
                lemma_char_views_push(vr@, cell);
            }
            vr.push(cell);
            assert(virtual_row(rw, ws, r as int).take(j + 1) =~= virtual_row(rw, ws, r as int).take(
                j as int,
            ).push(virtual_row(rw, ws, r as int)[j as int]));
            j = j + 1;
        }
        assert(virtual_row(rw, ws, r as int).take(row.len() as int) =~= virtual_row(rw, ws, r as int));
        let line = row_line_of(aligns, &vr, widths);
        proof { lemma_char_views_push(out@, line); }
        out.push(line);
        assert(row_block(aligns@, rw, ws).take(r + 1) =~= row_block(aligns@, rw, ws).take(r as int).push(
            row_block(aligns@, rw, ws)[r as int],
        ));
        r = r + 1;
    }
    assert(row_block(aligns@, rw, ws).take(height as int) =~= row_block(aligns@, rw, ws));
    out
}

/// The display width of a boxed table with the given column widths.
pub fn span_of(widths: &Vec<usize>) -> (r: usize)
    ensures
        r == span(nat_views(widths@)),
{
    let ghost ws = nat_views(widths@);
    let mut acc: usize = 1;
    let mut i: usize = 0;
    while i < widths.len()
        invariant
            i <= widths.len(),
            ws == nat_views(widths@),
            acc == span(ws.take(i as int)),
        decreases widths.len() - i,
    {
        assert(ws.take(i + 1).drop_last() =~= ws.take(i as int));
        assert(ws.take(i + 1).last() == widths[i as int]);
        acc = acc.saturating_add(widths[i]).saturating_add(3);
        i = i + 1;
    }
    assert(ws.take(widths.len() as int) =~= ws);
    acc
}

/// Column widths for a table that does not fit the width.
pub fn shared_widths_of(widths: &Vec<usize>, width: usize) -> (r: Vec<usize>)
    ensures
        nat_views(r@) == shared_widths(nat_views(widths@), width as nat),
{
    let n = widths.len();
    let fixed = if n > (usize::MAX - 1) / 3 { usize::MAX } else { 3 * n + 1 };
    let room = if width > fixed { width - fixed } else { 0 };
    let share = if n > 0 && room / n > 1 { room / n } else { 1 };
    let mut r: Vec<usize> = Vec::new();
    let mut i: usize = 0;
    while i < n
        invariant
            i <= n,
            n == widths.len(),
            r@.len() == i,
            forall|j: int| 0 <= j < i ==> #[trigger] r@[j] == (if widths@[j] < share { widths@[j] } else { share }),
        decreases n - i,
    {
        r.push(if widths[i] < share { widths[i] } else { share });
        i = i + 1;
    }
    assert(nat_views(r@) =~= shared_widths(nat_views(widths@), width as nat));
    r
}

/// A boxed table with the given column widths.
#[verifier::rlimit(100)]
#[verifier::spinoff_prover]
pub fn boxed_table_of(aligns: &Vec<CellAlignment>, rows: &Vec<Vec<Vec<char>>>, widths: &Vec<usize>) -> (r: Vec<Vec<char>>)
    ensures
        char_views(r@) == boxed_table(aligns@, row_views(rows@), nat_views(widths@)),
{
    let ghost rv = row_views(rows@);
    let ghost ws = nat_views(widths@);
    let mut out: Vec<Vec<char>> = Vec::new();
    let top = border_line_of('┌', '┬', '┐', widths);
    proof { lemma_char_views_push(out@, top); }
    out.push(top);
    let mut k: usize = 0;
    while k < rows.len()
        invariant
            k <= rows.len(),
            rv == row_views(rows@),
            ws == nat_views(widths@),
            char_views(out@) == seq![border_line('┌', '┬', '┐', ws)] + boxed_rows(aligns@, rv.take(k as int), ws),
        decreases rows.len() - k,
    {
        assert(rv.take(k + 1).drop_last() =~= rv.take(k as int));
        assert(rv.take(k + 1).last() == char_views(rows@[k as int]@));
        let block = row_block_of(aligns, &rows[k], widths);
        let mut j: usize = 0;
        let ghost before = char_views(out@);
        while j < block.len()
            invariant
                j <= block.len(),
                char_views(out@) == before + char_views(block@).take(j as int),
            decreases block.len() - j,
        {
            let line = copy_chars(&block[j]);
            proof { lemma_char_views_push(out@, line); }
            out.push(line);
            assert(char_views(block@).take(j + 1) =~= char_views(block@).take(j as int).push(block@[j as int]@));
            j = j + 1;
        }
        assert(char_views(block@).take(block.len() as int) =~= char_views(block@));
        if k == 0 {
            let sep = border_line_of('├', '┼', '┤', widths);
            proof { lemma_char_views_push(out@, sep); }
            out.push(sep);
        }
        assert(char_views(out@) =~= seq![border_line('┌', '┬', '┐', ws)] + boxed_rows(aligns@, rv.take(k + 1), ws));
        k = k + 1;
    }
    assert(rv.take(rows.len() as int) =~= rv);
    let bottom = border_line_of('└', '┴', '┘', widths);
    proof { lemma_char_views_push(out@, bottom); }
    out.push(bottom);
    assert(char_views(out@) =~= boxed_table(aligns@, rv, ws));
    out
}

/// Entry line `i` of a plain table entry.
fn entry_line_of(header: &Vec<Vec<char>>, row: &Vec<Vec<char>>, i: usize) -> (r: Vec<char>)
    requires
        i < row.len(),
    ensures
        r@ == entry_line(char_views(header@), char_views(row@), i as int),
{
    let mut out: Vec<char> = Vec::new();
    if i > 0 {
        out.push(' ');
        out.push(' ');
    }
    let has_label = i < header.len() && header[i].len() > 0;
    if has_label {
        push_chars(&mut out, &header[i]);
        out.push(':');
        out.push(' ');
    }
    push_chars(&mut out, &row[i]);
    proof {
        let hv = char_views(header@);
        if i < header.len() {
            assert(hv[i as int] == header@[i as int]@);
        }
        assert(char_views(row@)[i as int] == row@[i as int]@);
    }
    assert(out@ =~= entry_line(char_views(header@), char_views(row@), i as int));
    out
}

/// A table laid out as plain entries.
#[verifier::rlimit(100)]
#[verifier::spinoff_prover]
pub fn flat_lines_of(rows: &Vec<Vec<Vec<char>>>) -> (r: Vec<Vec<char>>)
    ensures
        char_views(r@) == flat_lines(row_views(rows@)),
{
    let ghost rv = row_views(rows@);
    let mut out: Vec<Vec<char>> = Vec::new();
    if rows.len() <= 1 {
        if rows.len() == 1 {
            let line = join_cells_of(&rows[0]);
            proof { lemma_char_views_push(out@, line); }
            out.push(line);
        }
        assert(char_views(out@) =~= rv.map_values(|r: Seq<Seq<char>>| join_cells(r)));
        return out;
    }
    let ghost hv = rv[0];
    assert(hv == char_views(rows@[0]@));
    let mut k: usize = 1;
    assert(rv.subrange(1, 1) =~= Seq::<Seq<Seq<char>>>::empty());
    assert(char_views(out@) =~= Seq::<Seq<char>>::empty());
    while k < rows.len()
        invariant
            1 <= k <= rows.len(),
            rv == row_views(rows@),
            hv == char_views(rows@[0]@),
            char_views(out@) == flat_rows(hv, rv.subrange(1, k as int)),
        decreases rows.len() - k,
    {
        assert(rv.subrange(1, k + 1).drop_last() =~= rv.subrange(1, k as int));
        assert(rv.subrange(1, k + 1).last() == char_views(rows@[k as int]@));
        let ghost before = char_views(out@);
        let mut i: usize = 0;
        while i < rows[k].len()
            invariant
                i <= rows@[k as int]@.len(),
                k < rows.len(),
                hv == char_views(rows@[0]@),
                char_views(out@) == before + entry_lines(hv, char_views(rows@[k as int]@)).take(i as int),
            decreases rows@[k as int]@.len() - i,
        {
            let line = entry_line_of(&rows[0], &rows[k], i);
            proof { lemma_char_views_push(out@, line); }
            out.push(line);
            assert(entry_lines(hv, char_views(rows@[k as int]@)).take(i + 1) =~= entry_lines(
                hv,
                char_views(rows@[k as int]@),
            ).take(i as int).push(line@));
            i = i + 1;
        }
        assert(entry_lines(hv, char_views(rows@[k as int]@)).take(rows@[k as int]@.len() as int)
            =~= entry_lines(hv, char_views(rows@[k as int]@)));
        k = k + 1;
    }
    assert(rv.subrange(1, rows.len() as int) =~= rv.subrange(1, rv.len() as int));
    out
}

/// How a cell sits in its column: between single spaces and followed by a
/// column bar, a cell no wider than its column is padded to the column width,
/// all on the left in a right-aligned column, all on the right in a
/// left-aligned or unaligned one, and split in a centred one (the odd space
/// on the right).
pub proof fn lemma_cell_alignment(aligns: Seq<CellAlignment>, row: Seq<Seq<char>>, widths: Seq<nat>, i: int)
    requires
        0 <= i < widths.len(),
        i < row.len(),
        i < aligns.len(),
        cell_width(row[i]) <= widths[i],
    ensures
        ({
            let pad = (widths[i] - cell_width(row[i])) as nat;
            let piece = cell_piece(aligns, row, widths, i);
            &&& aligns[i] == CellAlignment::Right ==> piece == seq![' '] + repeat(' ', pad) + row[i] + seq![' ', '│']
            &&& (aligns[i] == CellAlignment::Left || aligns[i] == CellAlignment::Unaligned) ==> piece == seq![' ']
                + row[i] + repeat(' ', pad) + seq![' ', '│']
            &&& aligns[i] == CellAlignment::Center ==> piece == seq![' '] + repeat(' ', pad / 2) + row[i] + repeat(
                ' ',
                (pad - pad / 2) as nat,
            ) + seq![' ', '│']
        }),
{
    let pad = (widths[i] - cell_width(row[i])) as nat;
    if aligns[i] == CellAlignment::Right || aligns[i] == CellAlignment::Left || aligns[i] == CellAlignment::Unaligned {
        assert(repeat(' ', 0) =~= Seq::<char>::empty());
        assert(seq![' '] + repeat(' ', pad) + row[i] + repeat(' ', 0) + seq![' ', '│'] =~= seq![' '] + repeat(' ', pad)
            + row[i] + seq![' ', '│']);
        assert(seq![' '] + repeat(' ', 0) + row[i] + repeat(' ', pad) + seq![' ', '│'] =~= seq![' '] + row[i] + repeat(
            ' ',
            pad,
        ) + seq![' ', '│']);
    }
}

/// Style codes in a cell take no width: a cell of plain text in bold or in
/// italics is as wide as the text, so it is padded as the text would be.
pub proof fn lemma_styled_cell_width(x: Seq<char>)
    requires
        no_escape(x),
    ensures
        cell_width(esc_bold() + x + esc_bold_off()) == cell_width(x),
        cell_width(esc_italic() + x + esc_italic_off()) == cell_width(x),
{
    lemma_plain_closed(x);
    let b = esc_bold();
    let bo = esc_bold_off();
    let i = esc_italic();
    let io = esc_italic_off();
    assert(b[0] == '\x1b' && b[1] == '[' && b[2] == '1' && b.last() == 'm');
    assert(bo[0] == '\x1b' && bo[1] == '[' && bo[2] == '2' && bo[3] == '2' && bo.last() == 'm');
    assert(i[0] == '\x1b' && i[1] == '[' && i[2] == '3' && i.last() == 'm');
    assert(io[0] == '\x1b' && io[1] == '[' && io[2] == '2' && io[3] == '3' && io.last() == 'm');
    lemma_code_closed(b);
    lemma_code_closed(bo);
    lemma_code_closed(i);
    lemma_code_closed(io);
    lemma_closed_concat(b, x);
    lemma_closed_concat(b + x, bo);
    lemma_closed_concat(i, x);
    lemma_closed_concat(i + x, io);
    assert(Seq::<char>::empty() + x + Seq::<char>::empty() =~= x);
}

} // verus!
