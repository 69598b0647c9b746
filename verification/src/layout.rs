//! Placing the characters of paragraphs on the cells of the grid.
//!
//! The writing position is a cursor `(column, row)`.  A paragraph after the
//! first starts on a new row (when the current row holds anything), two cells
//! in; the first paragraph is indented the same way when asked, and may be
//! pushed down one row.  A character that would fall at or past the last
//! column moves to the start of the next row.

use vstd::prelude::*;
use crate::text::{chars_of, strings_view};

verus! {

/// A character and the grid cell it is written in.
#[derive(Clone, Copy, Debug, PartialEq, Eq)]
pub struct PlacedChar {
    pub ch: char,
    pub column: usize,
    pub row: usize,
}

impl View for PlacedChar {
    type V = (char, int, int);

    open spec fn view(&self) -> (char, int, int) {
        (self.ch, self.column as int, self.row as int)
    }
}

/// The views of placed characters.
pub open spec fn cells_view(v: Seq<PlacedChar>) -> Seq<(char, int, int)> {
    v.map_values(|p: PlacedChar| p@)
}

/// The cursor `(column, row)` once paragraph `index` begins, from the cursor
/// `at` where the previous paragraph ended.
pub open spec fn enter_paragraph(
    index: int,
    at: (int, int),
    first_line_indent: bool,
    first_line_newline: bool,
) -> (int, int) {
    if index == 0 {
        (
            if first_line_indent { 2 } else { 0 },
            if first_line_newline { at.1 + 1 } else { at.1 },
        )
    } else {
        (2, if at.0 > 0 { at.1 + 1 } else { at.1 })
    }
}

/// The cell where the next character goes, from cursor `at`.
pub open spec fn char_cell(at: (int, int), columns: int) -> (int, int) {
    if at.0 >= columns {
        (0, at.1 + 1)
    } else {
        at
    }
}

/// The cursor after a character is written, from cursor `at`.
pub open spec fn after_char(at: (int, int), columns: int) -> (int, int) {
    let c = char_cell(at, columns);
    (c.0 + 1, c.1)
}

/// The cells of the characters of `chars`, written from cursor `at`, and the
/// cursor after them.
pub open spec fn place_chars(chars: Seq<char>, at: (int, int), columns: int) -> (
    Seq<(char, int, int)>,
    (int, int),
)
    decreases chars.len(),
{
    if chars.len() == 0 {
        (Seq::<(char, int, int)>::empty(), at)
    } else {
        let (cells, cur) = place_chars(chars.drop_last(), at, columns);
        let c = char_cell(cur, columns);
        (cells.push((chars.last(), c.0, c.1)), after_char(cur, columns))
    }
}

/// The cells of all characters of `paras`, in order, and the final cursor.
pub open spec fn layout(
    paras: Seq<Seq<char>>,
    columns: int,
    first_line_indent: bool,
    first_line_newline: bool,
) -> (Seq<(char, int, int)>, (int, int))
    decreases paras.len(),
{
    if paras.len() == 0 {
        (Seq::<(char, int, int)>::empty(), (0, 0))
    } else {
        let (cells, cur) = layout(paras.drop_last(), columns, first_line_indent, first_line_newline);
        let start = enter_paragraph(paras.len() - 1, cur, first_line_indent, first_line_newline);
        let (more, end) = place_chars(paras.last(), start, columns);
        (cells + more, end)
    }
}

/// The number of characters in `paras`.
pub open spec fn total_chars(paras: Seq<Seq<char>>) -> nat
    decreases paras.len(),
{
    if paras.len() == 0 {
        0
    } else {
        total_chars(paras.drop_last()) + paras.last().len()
    }
}

/// The characters of `paras`, one after another.
pub open spec fn flatten(paras: Seq<Seq<char>>) -> Seq<char>
    decreases paras.len(),
{
    if paras.len() == 0 {
        Seq::<char>::empty()
    } else {
        flatten(paras.drop_last()) + paras.last()
    }
}

proof fn lemma_cells_view_push(a: Seq<PlacedChar>, pc: PlacedChar)
    ensures
        cells_view(a.push(pc)) == cells_view(a).push(pc@),
{
    assert(cells_view(a.push(pc)) =~= cells_view(a).push(pc@));
}

proof fn lemma_total_chars_prefix(paras: Seq<Seq<char>>, k: int)
    requires
        0 <= k <= paras.len(),
    ensures
        total_chars(paras.take(k)) <= total_chars(paras),
    decreases paras.len() - k,
{
    if k < paras.len() {
        lemma_total_chars_prefix(paras, k + 1);
        assert(paras.take(k + 1).drop_last() == paras.take(k));
    } else {
        assert(paras.take(k) == paras);
    }
}

proof fn lemma_place_chars_len(chars: Seq<char>, at: (int, int), columns: int)
    ensures
        place_chars(chars, at, columns).0.len() == chars.len(),
    decreases chars.len(),
{
    if chars.len() > 0 {
        lemma_place_chars_len(chars.drop_last(), at, columns);
    }
}

/// Writes the characters of `chars` from cursor `(line_count, row)` and
/// returns the cursor after them.
fn place_paragraph(
    out: &mut Vec<PlacedChar>,
    chars: &Vec<char>,
    columns: usize,
    line_count: usize,
    row: usize,
) -> (end: (usize, usize))
    requires
        row + chars@.len() <= usize::MAX,
        line_count <= columns || line_count <= 2,
    ensures
        cells_view(final(out)@) == cells_view(old(out)@) + place_chars(
            chars@,
            (line_count as int, row as int),
            columns as int,
        ).0,
        (end.0 as int, end.1 as int) == place_chars(
            chars@,
            (line_count as int, row as int),
            columns as int,
        ).1,
        final(out)@.len() == old(out)@.len() + chars@.len(),
        end.1 <= row + chars@.len(),
        end.0 <= columns || end.0 <= 2,
{
    let ghost start = (line_count as int, row as int);
    let ghost out0 = out@;
    let n = chars.len();
    let mut lc = line_count;
    let mut r = row;
    assert(chars@.take(0) == Seq::<char>::empty());
    for j in 0..n
        invariant
            n == chars@.len(),
            row + n <= usize::MAX,
            r <= row + j,
            lc <= columns || lc <= 2,
            cells_view(out@) == cells_view(out0) + place_chars(chars@.take(j as int), start, columns as int).0,
            (lc as int, r as int) == place_chars(chars@.take(j as int), start, columns as int).1,
    {
        assert(chars@.take(j + 1).drop_last() == chars@.take(j as int));
        assert(chars@.take(j + 1).last() == chars@[j as int]);
        if lc >= columns {
            lc = 0;
            r = r + 1;
        }
        let ghost o1 = out@;
        let ghost placed = PlacedChar { ch: chars@[j as int], column: lc, row: r };
        out.push(PlacedChar { ch: chars[j], column: lc, row: r });
        assert(out@ == o1.push(placed));
        proof {
            lemma_cells_view_push(o1, placed);
        }
        lc = lc + 1;
    }
    assert(chars@.take(n as int) == chars@);
    proof {
        lemma_place_chars_len(chars@, start, columns as int);
        assert(cells_view(out@).len() == out@.len());
        assert(cells_view(out0).len() == out0.len());
    }
    (lc, r)
}

/// The cells where the characters of `paragraphs` are written on a grid
/// `columns` cells wide, with the first paragraph indented two cells when
/// `first_line_indent` holds and started one row down when
/// `first_line_newline` holds.
pub fn layout_paragraphs(
    paragraphs: &Vec<String>,
    columns: usize,
    first_line_indent: bool,
    first_line_newline: bool,
) -> (r: Vec<PlacedChar>)
    requires
        total_chars(strings_view(paragraphs@)) + paragraphs@.len() < usize::MAX,
    ensures
        cells_view(r@) == layout(
            strings_view(paragraphs@),
            columns as int,
            first_line_indent,
            first_line_newline,
        ).0,
{
    let ghost paras = strings_view(paragraphs@);
    let np = paragraphs.len();
    let mut out: Vec<PlacedChar> = Vec::new();
    let mut line_count: usize = 0;
    let mut row: usize = 0;
    assert(paras.take(0) == Seq::<Seq<char>>::empty());
    for pi in 0..np
        invariant
            np == paragraphs@.len(),
            paras == strings_view(paragraphs@),
            total_chars(paras) + np < usize::MAX,
            cells_view(out@) == layout(paras.take(pi as int), columns as int, first_line_indent, first_line_newline).0,
            (line_count as int, row as int) == layout(paras.take(pi as int), columns as int, first_line_indent, first_line_newline).1,
            out@.len() == total_chars(paras.take(pi as int)),
            row <= out@.len() + pi,
            line_count <= columns || line_count <= 2,
    {
        let ghost before = paras.take(pi as int);
        let ghost out0 = out@;
        proof {
            assert(paras.take(pi + 1).drop_last() == before);
            assert(paras.take(pi + 1).last() == paras[pi as int]);
            lemma_total_chars_prefix(paras, pi + 1);
        }
        if pi == 0 {
            if first_line_newline {
                row = row + 1;
            }
            line_count = if first_line_indent { 2 } else { 0 };
        } else {
            if line_count > 0 {
                row = row + 1;
            }
            line_count = 2;
        }
        let ghost start = (line_count as int, row as int);
        assert(start == enter_paragraph(pi as int, layout(before, columns as int, first_line_indent, first_line_newline).1, first_line_indent, first_line_newline));
        let cs = chars_of(paragraphs[pi].as_str());
        let nc = cs.len();
        assert(cs@ == paras[pi as int]);
        let end = place_paragraph(&mut out, &cs, columns, line_count, row);
        line_count = end.0;
        row = end.1;
        proof {
            assert(cs@.take(nc as int) == cs@);
            lemma_place_chars_len(cs@, start, columns as int);
            assert(paras.take(pi + 1).last() == cs@);
        }
    }
    proof {
        assert(paras.take(np as int) == paras);
    }
    out
}

/// Cell `a` comes before cell `b` in reading order (row by row, left to
/// right).
pub open spec fn reads_before(a: (char, int, int), b: (char, int, int)) -> bool {
    a.2 < b.2 || (a.2 == b.2 && a.1 < b.1)
}

/// Cell `c` lies before cursor `at` in reading order.
pub open spec fn before_cursor(c: (char, int, int), at: (int, int)) -> bool {
    c.2 < at.1 || (c.2 == at.1 && c.1 < at.0)
}

/// Cell `c` lies at or after cursor `at` in reading order.
pub open spec fn from_cursor(c: (char, int, int), at: (int, int)) -> bool {
    c.2 > at.1 || (c.2 == at.1 && c.1 >= at.0)
}

/// The facts that hold of the cells that `place_chars` gives.
pub open spec fn well_placed(cells: Seq<(char, int, int)>, start: (int, int), end: (int, int)) -> bool {
    &&& end.0 >= 0 && end.1 >= start.1
    &&& end.1 > start.1 || end.0 >= start.0
    &&& forall|i: int| 0 <= i < cells.len() ==> #[trigger] cells[i].1 >= 0 && cells[i].2 >= 0
    &&& forall|i: int| 0 <= i < cells.len() ==> before_cursor(#[trigger] cells[i], end)
    &&& forall|i: int| 0 <= i < cells.len() ==> from_cursor(#[trigger] cells[i], start)
    &&& forall|i: int, j: int|
        0 <= i < j < cells.len() ==> reads_before(#[trigger] cells[i], #[trigger] cells[j])
}

proof fn lemma_place_chars_well_placed(chars: Seq<char>, at: (int, int), columns: int)
    requires
        at.0 >= 0,
        at.1 >= 0,
    ensures
        well_placed(place_chars(chars, at, columns).0, at, place_chars(chars, at, columns).1),
        place_chars(chars, at, columns).0.len() == chars.len(),
    decreases chars.len(),
{
    if chars.len() > 0 {
        lemma_place_chars_well_placed(chars.drop_last(), at, columns);
        let (cells, cur) = place_chars(chars.drop_last(), at, columns);
        let c = char_cell(cur, columns);
        let nc = (chars.last(), c.0, c.1);
        let all = cells.push(nc);
        let end = after_char(cur, columns);
        assert forall|i: int| 0 <= i < all.len() implies before_cursor(#[trigger] all[i], end) by {
            if i < cells.len() {
                assert(before_cursor(cells[i], cur));
            }
        }
        assert forall|i: int, j: int| 0 <= i < j < all.len() implies reads_before(
            #[trigger] all[i],
            #[trigger] all[j],
        ) by {
            if j < cells.len() {
                assert(reads_before(cells[i], cells[j]));
            } else {
                assert(before_cursor(cells[i], cur));
            }
        }
        assert forall|i: int| 0 <= i < all.len() implies from_cursor(#[trigger] all[i], at) by {
            if i < cells.len() {
                assert(from_cursor(cells[i], at));
            }
        }
        assert forall|i: int| 0 <= i < all.len() implies #[trigger] all[i].1 >= 0 && all[i].2 >= 0 by {
            if i < cells.len() {
                assert(cells[i].1 >= 0);
            }
        }
    }
}

/// The facts that hold of the cells that `layout` gives, from the first
/// paragraph to the last.
pub open spec fn well_laid_out(cells: Seq<(char, int, int)>, end: (int, int)) -> bool {
    &&& end.0 >= 0 && end.1 >= 0
    &&& forall|i: int| 0 <= i < cells.len() ==> #[trigger] cells[i].1 >= 0 && cells[i].2 >= 0
    &&& forall|i: int| 0 <= i < cells.len() ==> before_cursor(#[trigger] cells[i], end)
    &&& forall|i: int, j: int|
        0 <= i < j < cells.len() ==> reads_before(#[trigger] cells[i], #[trigger] cells[j])
}

proof fn lemma_layout_well_laid_out(
    paras: Seq<Seq<char>>,
    columns: int,
    first_line_indent: bool,
    first_line_newline: bool,
)
    ensures
        well_laid_out(
            layout(paras, columns, first_line_indent, first_line_newline).0,
            layout(paras, columns, first_line_indent, first_line_newline).1,
        ),
        layout(paras, columns, first_line_indent, first_line_newline).0.len() == total_chars(paras),
    decreases paras.len(),
{
    if paras.len() > 0 {
        let k = paras.len() - 1;
        lemma_layout_well_laid_out(paras.drop_last(), columns, first_line_indent, first_line_newline);
        let (cells, cur) = layout(paras.drop_last(), columns, first_line_indent, first_line_newline);
        let start = enter_paragraph(k, cur, first_line_indent, first_line_newline);
        lemma_place_chars_well_placed(paras.last(), start, columns);
        let (more, end) = place_chars(paras.last(), start, columns);
        let all = cells + more;
        if k == 0 {
            assert(cells.len() == 0);
        }
        assert forall|i: int| 0 <= i < cells.len() implies #[trigger] cells[i].2 < start.1 || (
        cells[i].2 == start.1 && cells[i].1 < start.0) by {
            assert(before_cursor(cells[i], cur));
        }
        assert forall|i: int| 0 <= i < all.len() implies before_cursor(#[trigger] all[i], end) by {
            if i < cells.len() {
                assert(cells[i].2 < start.1 || (cells[i].2 == start.1 && cells[i].1 < start.0));
            } else {
                assert(before_cursor(more[i - cells.len()], end));
            }
        }
        assert forall|i: int, j: int| 0 <= i < j < all.len() implies reads_before(
            #[trigger] all[i],
            #[trigger] all[j],
        ) by {
            if j < cells.len() {
                assert(reads_before(cells[i], cells[j]));
            } else if i >= cells.len() {
                assert(reads_before(more[i - cells.len()], more[j - cells.len()]));
            } else {
                assert(cells[i].2 < start.1 || (cells[i].2 == start.1 && cells[i].1 < start.0));
                assert(from_cursor(more[j - cells.len()], start));
            }
        }
        assert forall|i: int| 0 <= i < all.len() implies #[trigger] all[i].1 >= 0 && all[i].2 >= 0 by {
            if i < cells.len() {
                assert(cells[i].1 >= 0);
            } else {
                assert(more[i - cells.len()].1 >= 0);
            }
        }
    }
}

/// Reading order: every character is written in a cell that comes after the
/// cell of the character before it, so no two characters share a cell.
pub proof fn lemma_layout_reading_order(
    paras: Seq<Seq<char>>,
    columns: int,
    first_line_indent: bool,
    first_line_newline: bool,
    i: int,
    j: int,
)
    requires
        0 <= i < j < layout(paras, columns, first_line_indent, first_line_newline).0.len(),
    ensures
        reads_before(
            layout(paras, columns, first_line_indent, first_line_newline).0[i],
            layout(paras, columns, first_line_indent, first_line_newline).0[j],
        ),
{
    lemma_layout_well_laid_out(paras, columns, first_line_indent, first_line_newline);
}

/// The characters of `cells`, in order.
pub open spec fn cell_chars(cells: Seq<(char, int, int)>) -> Seq<char> {
    cells.map_values(|c: (char, int, int)| c.0)
}

proof fn lemma_place_chars_text(chars: Seq<char>, at: (int, int), columns: int)
    ensures
        cell_chars(place_chars(chars, at, columns).0) == chars,
    decreases chars.len(),
{
    if chars.len() > 0 {
        lemma_place_chars_text(chars.drop_last(), at, columns);
        let (cells, cur) = place_chars(chars.drop_last(), at, columns);
        let c = char_cell(cur, columns);
        assert(cell_chars(cells.push((chars.last(), c.0, c.1))) =~= cell_chars(cells).push(chars.last()));
        assert(chars.drop_last().push(chars.last()) =~= chars);
    } else {
        assert(cell_chars(place_chars(chars, at, columns).0) =~= chars);
    }
}

/// Nothing is lost or reordered: the characters written, in reading order,
/// are the characters of the paragraphs one after another.
pub proof fn lemma_layout_keeps_text(
    paras: Seq<Seq<char>>,
    columns: int,
    first_line_indent: bool,
    first_line_newline: bool,
)
    ensures
        cell_chars(layout(paras, columns, first_line_indent, first_line_newline).0) == flatten(paras),
    decreases paras.len(),
{
    if paras.len() > 0 {
        lemma_layout_keeps_text(paras.drop_last(), columns, first_line_indent, first_line_newline);
        let (cells, cur) = layout(paras.drop_last(), columns, first_line_indent, first_line_newline);
        let start = enter_paragraph(paras.len() - 1, cur, first_line_indent, first_line_newline);
        lemma_place_chars_text(paras.last(), start, columns);
        let more = place_chars(paras.last(), start, columns).0;
        assert(cell_chars(cells + more) =~= cell_chars(cells) + cell_chars(more));
    } else {
        assert(cell_chars(layout(paras, columns, first_line_indent, first_line_newline).0) =~= flatten(paras));
    }
}

proof fn lemma_place_chars_columns(chars: Seq<char>, at: (int, int), columns: int)
    requires
        columns > 0,
    ensures
        forall|i: int|
            0 <= i < place_chars(chars, at, columns).0.len() ==> #[trigger] place_chars(
                chars,
                at,
                columns,
            ).0[i].1 < columns,
    decreases chars.len(),
{
    if chars.len() > 0 {
        lemma_place_chars_columns(chars.drop_last(), at, columns);
        let (cells, cur) = place_chars(chars.drop_last(), at, columns);
        let c = char_cell(cur, columns);
        let all = cells.push((chars.last(), c.0, c.1));
        assert forall|i: int| 0 <= i < all.len() implies #[trigger] all[i].1 < columns by {
            if i < cells.len() {
                assert(cells[i].1 < columns);
            }
        }
    }
}

/// The grid's width is kept: on a grid at least one cell wide, every
/// character is written in a column of the grid.
pub proof fn lemma_layout_within_columns(
    paras: Seq<Seq<char>>,
    columns: int,
    first_line_indent: bool,
    first_line_newline: bool,
    i: int,
)
    requires
        columns > 0,
        0 <= i < layout(paras, columns, first_line_indent, first_line_newline).0.len(),
    ensures
        0 <= layout(paras, columns, first_line_indent, first_line_newline).0[i].1 < columns,
    decreases paras.len(),
{
    lemma_layout_well_laid_out(paras, columns, first_line_indent, first_line_newline);
    let (cells, cur) = layout(paras.drop_last(), columns, first_line_indent, first_line_newline);
    if i < cells.len() {
        lemma_layout_within_columns(paras.drop_last(), columns, first_line_indent, first_line_newline, i);
    } else {
        let start = enter_paragraph(paras.len() - 1, cur, first_line_indent, first_line_newline);
        lemma_place_chars_columns(paras.last(), start, columns);
        assert(layout(paras, columns, first_line_indent, first_line_newline).0[i]
            == place_chars(paras.last(), start, columns).0[i - cells.len()]);
    }
}

/// Every paragraph after the first starts on a new row: each character of the
/// first `m` paragraphs lies on a row above each character of the paragraphs
/// after them.
pub proof fn lemma_layout_paragraphs_on_new_rows(
    paras: Seq<Seq<char>>,
    columns: int,
    first_line_indent: bool,
    first_line_newline: bool,
    m: int,
    i: int,
    j: int,
)
    requires
        1 <= m < paras.len(),
        0 <= i < total_chars(paras.take(m)),
        total_chars(paras.take(m)) <= j < total_chars(paras),
    ensures
        layout(paras, columns, first_line_indent, first_line_newline).0[i].2 < layout(
            paras,
            columns,
            first_line_indent,
            first_line_newline,
        ).0[j].2,
    decreases paras.len(),
{
    let n = paras.len();
    let prev = paras.drop_last();
    lemma_layout_well_laid_out(prev, columns, first_line_indent, first_line_newline);
    let (cells, cur) = layout(prev, columns, first_line_indent, first_line_newline);
    let start = enter_paragraph(n - 1, cur, first_line_indent, first_line_newline);
    lemma_place_chars_well_placed(paras.last(), start, columns);
    let more = place_chars(paras.last(), start, columns).0;
    let all = layout(paras, columns, first_line_indent, first_line_newline).0;
    assert(all == cells + more);
    lemma_total_chars_prefix(prev, m);
    assert(prev.take(m) == paras.take(m));
    assert(paras.take(n as int) == paras);
    assert(total_chars(paras) == total_chars(prev) + paras.last().len());
    if j < cells.len() {
        lemma_layout_paragraphs_on_new_rows(prev, columns, first_line_indent, first_line_newline, m, i, j);
    } else {
        assert(before_cursor(cells[i], cur));
        assert(from_cursor(more[j - cells.len()], start));
    }
}

proof fn lemma_place_chars_first(chars: Seq<char>, at: (int, int), columns: int)
    requires
        chars.len() > 0,
    ensures
        place_chars(chars, at, columns).0[0] == (chars[0], char_cell(at, columns).0, char_cell(at, columns).1),
    decreases chars.len(),
{
    lemma_place_chars_len(chars, at, columns);
    let (cells, cur) = place_chars(chars.drop_last(), at, columns);
    if chars.len() > 1 {
        lemma_place_chars_first(chars.drop_last(), at, columns);
        lemma_place_chars_len(chars.drop_last(), at, columns);
        assert(chars.drop_last()[0] == chars[0]);
    } else {
        assert(chars.drop_last().len() == 0);
        assert(cur == at);
        assert(chars.last() == chars[0]);
    }
}

/// Each paragraph is indented two cells: on a grid more than two cells wide,
/// the first character of every paragraph after the first, and of the first
/// when its indent is asked for, is written in column 2.
pub proof fn lemma_layout_paragraph_indent(
    paras: Seq<Seq<char>>,
    columns: int,
    first_line_indent: bool,
    first_line_newline: bool,
    m: int,
)
    requires
        0 <= m < paras.len(),
        paras[m].len() > 0,
        columns > 2,
        m > 0 || first_line_indent,
    ensures
        total_chars(paras.take(m)) < layout(paras, columns, first_line_indent, first_line_newline).0.len(),
        layout(paras, columns, first_line_indent, first_line_newline).0[total_chars(paras.take(m)) as int]
            == (paras[m][0], 2int, layout(paras, columns, first_line_indent, first_line_newline).0[total_chars(paras.take(m)) as int].2),
    decreases paras.len(),
{
    let n = paras.len();
    let prev = paras.drop_last();
    lemma_layout_well_laid_out(paras, columns, first_line_indent, first_line_newline);
    lemma_layout_well_laid_out(prev, columns, first_line_indent, first_line_newline);
    let (cells, cur) = layout(prev, columns, first_line_indent, first_line_newline);
    let start = enter_paragraph(n - 1, cur, first_line_indent, first_line_newline);
    let more = place_chars(paras.last(), start, columns).0;
    let all = layout(paras, columns, first_line_indent, first_line_newline).0;
    assert(all == cells + more);
    lemma_place_chars_len(paras.last(), start, columns);
    assert(paras.take(n as int) == paras);
    if m == n - 1 {
        assert(paras.take(m) == prev);
        lemma_place_chars_first(paras.last(), start, columns);
        assert(all[cells.len() as int] == more[0]);
    } else {
        assert(prev.take(m) == paras.take(m));
        assert(prev[m] == paras[m]);
        lemma_layout_paragraph_indent(prev, columns, first_line_indent, first_line_newline, m);
        assert(all[total_chars(paras.take(m)) as int] == cells[total_chars(paras.take(m)) as int]);
    }
}

/// The cells moved down one row.
pub open spec fn one_row_down(cells: Seq<(char, int, int)>) -> Seq<(char, int, int)> {
    cells.map_values(|c: (char, int, int)| (c.0, c.1, c.2 + 1))
}

proof fn lemma_place_chars_down(chars: Seq<char>, at: (int, int), columns: int)
    ensures
        place_chars(chars, (at.0, at.1 + 1), columns).0 == one_row_down(place_chars(chars, at, columns).0),
        place_chars(chars, (at.0, at.1 + 1), columns).1 == (
            place_chars(chars, at, columns).1.0,
            place_chars(chars, at, columns).1.1 + 1,
        ),
    decreases chars.len(),
{
    if chars.len() > 0 {
        lemma_place_chars_down(chars.drop_last(), at, columns);
        let (cells, cur) = place_chars(chars.drop_last(), at, columns);
        let c = char_cell(cur, columns);
        assert(one_row_down(cells.push((chars.last(), c.0, c.1))) =~= one_row_down(cells).push(
            (chars.last(), c.0, c.1 + 1),
        ));
    } else {
        assert(one_row_down(Seq::<(char, int, int)>::empty()) =~= Seq::<(char, int, int)>::empty());
    }
}

/// Starting the first line one row down moves the whole text down one row
/// and changes nothing else: every character keeps its column and gets the
/// row below the one it has without that option.
pub proof fn lemma_layout_first_line_newline(paras: Seq<Seq<char>>, columns: int, first_line_indent: bool)
    ensures
        layout(paras, columns, first_line_indent, true).0 == one_row_down(
            layout(paras, columns, first_line_indent, false).0,
        ),
        paras.len() > 0 ==> layout(paras, columns, first_line_indent, true).1 == (
            layout(paras, columns, first_line_indent, false).1.0,
            layout(paras, columns, first_line_indent, false).1.1 + 1,
        ),
    decreases paras.len(),
{
    if paras.len() == 0 {
        assert(one_row_down(Seq::<(char, int, int)>::empty()) =~= Seq::<(char, int, int)>::empty());
    } else {
        let prev = paras.drop_last();
        lemma_layout_first_line_newline(prev, columns, first_line_indent);
        let (cells_f, cur_f) = layout(prev, columns, first_line_indent, false);
        let start_f = enter_paragraph(paras.len() - 1, cur_f, first_line_indent, false);
        let cur_t = layout(prev, columns, first_line_indent, true).1;
        let start_t = enter_paragraph(paras.len() - 1, cur_t, first_line_indent, true);
        if paras.len() == 1 {
            assert(cur_f == (0int, 0int));
            assert(cur_t == (0int, 0int));
        }
        assert(start_t == (start_f.0, start_f.1 + 1));
        lemma_place_chars_down(paras.last(), start_f, columns);
        let more_f = place_chars(paras.last(), start_f, columns).0;
        assert(one_row_down(cells_f + more_f) =~= one_row_down(cells_f) + one_row_down(more_f));
    }
}

proof fn lemma_layout_end_after_last(
    paras: Seq<Seq<char>>,
    columns: int,
    first_line_indent: bool,
    first_line_newline: bool,
)
    requires
        paras.len() > 0,
        paras.last().len() > 0,
    ensures
        layout(paras, columns, first_line_indent, first_line_newline).0.len() > 0,
        layout(paras, columns, first_line_indent, first_line_newline).1 == (
            layout(paras, columns, first_line_indent, first_line_newline).0.last().1 + 1,
            layout(paras, columns, first_line_indent, first_line_newline).0.last().2,
        ),
{
    let (cells, cur) = layout(paras.drop_last(), columns, first_line_indent, first_line_newline);
    let start = enter_paragraph(paras.len() - 1, cur, first_line_indent, first_line_newline);
    let chars = paras.last();
    let (cells2, cur2) = place_chars(chars.drop_last(), start, columns);
    let c = char_cell(cur2, columns);
    let more = cells2.push((chars.last(), c.0, c.1));
    assert(place_chars(chars, start, columns) == (more, after_char(cur2, columns)));
    assert((cells + more).last() == more.last());
}

/// A paragraph after the first begins on the row just below the row of the
/// last character of the paragraph before it, two cells in: no row is left
/// blank between paragraphs, whatever the first-line options are.
pub proof fn lemma_layout_next_paragraph(
    paras: Seq<Seq<char>>,
    columns: int,
    first_line_indent: bool,
    first_line_newline: bool,
    m: int,
)
    requires
        1 <= m < paras.len(),
        paras[m - 1].len() > 0,
        paras[m].len() > 0,
        columns > 2,
    ensures
        0 < total_chars(paras.take(m)) < layout(paras, columns, first_line_indent, first_line_newline).0.len(),
        layout(paras, columns, first_line_indent, first_line_newline).0[total_chars(paras.take(m)) as int] == (
            paras[m][0],
            2int,
            layout(paras, columns, first_line_indent, first_line_newline).0[total_chars(paras.take(m)) - 1].2 + 1,
        ),
    decreases paras.len(),
{
    let n = paras.len();
    let prev = paras.drop_last();
    lemma_layout_well_laid_out(paras, columns, first_line_indent, first_line_newline);
    lemma_layout_well_laid_out(prev, columns, first_line_indent, first_line_newline);
    let (cells, cur) = layout(prev, columns, first_line_indent, first_line_newline);
    let start = enter_paragraph(n - 1, cur, first_line_indent, first_line_newline);
    let more = place_chars(paras.last(), start, columns).0;
    let all = layout(paras, columns, first_line_indent, first_line_newline).0;
    assert(all == cells + more);
    lemma_place_chars_len(paras.last(), start, columns);
    assert(paras.take(n as int) == paras);
    if m == n - 1 {
        assert(paras.take(m) == prev);
        assert(prev.last() == paras[m - 1]);
        lemma_layout_end_after_last(prev, columns, first_line_indent, first_line_newline);
        assert(cells.last() == cells[cells.len() - 1]);
        assert(cells[cells.len() - 1].1 >= 0);
        assert(start == (2int, cur.1 + 1));
        lemma_place_chars_first(paras.last(), start, columns);
        assert(all[cells.len() as int] == more[0]);
        assert(all[cells.len() - 1] == cells[cells.len() - 1]);
    } else {
        assert(prev.take(m) == paras.take(m));
        assert(prev[m] == paras[m]);
        assert(prev[m - 1] == paras[m - 1]);
        lemma_layout_next_paragraph(prev, columns, first_line_indent, first_line_newline, m);
        let k = total_chars(paras.take(m)) as int;
        assert(all[k] == cells[k]);
        assert(all[k - 1] == cells[k - 1]);
    }
}

proof fn lemma_place_chars_step(chars: Seq<char>, at: (int, int), columns: int, j: int)
    requires
        0 <= j,
        j + 1 < chars.len(),
    ensures
        place_chars(chars, at, columns).0[j + 1] == (
            chars[j + 1],
            char_cell((place_chars(chars, at, columns).0[j].1 + 1, place_chars(chars, at, columns).0[j].2), columns).0,
            char_cell((place_chars(chars, at, columns).0[j].1 + 1, place_chars(chars, at, columns).0[j].2), columns).1,
        ),
    decreases chars.len(),
{
    let prefix = chars.drop_last();
    lemma_place_chars_len(prefix, at, columns);
    let (cells, cur) = place_chars(prefix, at, columns);
    let all = place_chars(chars, at, columns).0;
    assert(all == cells.push((chars.last(), char_cell(cur, columns).0, char_cell(cur, columns).1)));
    if j + 1 < chars.len() - 1 {
        lemma_place_chars_step(prefix, at, columns, j);
        assert(prefix[j + 1] == chars[j + 1]);
        assert(all[j] == cells[j]);
        assert(all[j + 1] == cells[j + 1]);
    } else {
        let (cells2, cur2) = place_chars(prefix.drop_last(), at, columns);
        let c2 = char_cell(cur2, columns);
        assert(place_chars(prefix, at, columns) == (
            cells2.push((prefix.last(), c2.0, c2.1)),
            after_char(cur2, columns),
        ));
        assert(cells[j] == (prefix.last(), c2.0, c2.1));
        assert(all[j] == cells[j]);
        assert(chars.last() == chars[j + 1]);
    }
}

/// Within a paragraph, each character after the first goes in the cell just
/// right of the one before it, or, when that one is in the last column, in
/// the first column of the next row.
pub proof fn lemma_layout_next_char(
    paras: Seq<Seq<char>>,
    columns: int,
    first_line_indent: bool,
    first_line_newline: bool,
    m: int,
    j: int,
)
    requires
        0 <= m < paras.len(),
        0 <= j,
        j + 1 < paras[m].len(),
    ensures
        total_chars(paras.take(m)) + j + 1 < layout(paras, columns, first_line_indent, first_line_newline).0.len(),
        layout(paras, columns, first_line_indent, first_line_newline).0[total_chars(paras.take(m)) + j + 1] == (
            paras[m][j + 1],
            if layout(paras, columns, first_line_indent, first_line_newline).0[total_chars(paras.take(m)) + j].1 + 1
                < columns {
                layout(paras, columns, first_line_indent, first_line_newline).0[total_chars(paras.take(m)) + j].1 + 1
            } else {
                0
            },
            if layout(paras, columns, first_line_indent, first_line_newline).0[total_chars(paras.take(m)) + j].1 + 1
                < columns {
                layout(paras, columns, first_line_indent, first_line_newline).0[total_chars(paras.take(m)) + j].2
            } else {
                layout(paras, columns, first_line_indent, first_line_newline).0[total_chars(paras.take(m)) + j].2 + 1
            },
        ),
    decreases paras.len(),
{
    let n = paras.len();
    let prev = paras.drop_last();
    lemma_layout_well_laid_out(paras, columns, first_line_indent, first_line_newline);
    lemma_layout_well_laid_out(prev, columns, first_line_indent, first_line_newline);
    let (cells, cur) = layout(prev, columns, first_line_indent, first_line_newline);
    let start = enter_paragraph(n - 1, cur, first_line_indent, first_line_newline);
    let more = place_chars(paras.last(), start, columns).0;
    let all = layout(paras, columns, first_line_indent, first_line_newline).0;
    assert(all == cells + more);
    lemma_place_chars_len(paras.last(), start, columns);
    assert(paras.take(n as int) == paras);
    if m == n - 1 {
        assert(paras.take(m) == prev);
        lemma_place_chars_step(paras.last(), start, columns, j);
        assert(all[cells.len() + j] == more[j]);
        assert(all[cells.len() + j + 1] == more[j + 1]);
    } else {
        assert(prev.take(m) == paras.take(m));
        assert(prev[m] == paras[m]);
        lemma_layout_next_char(prev, columns, first_line_indent, first_line_newline, m, j);
        let k = total_chars(paras.take(m)) as int;
        assert(all[k + j] == cells[k + j]);
        assert(all[k + j + 1] == cells[k + j + 1]);
    }
}

/// The first character of the text goes in the first row, or the second when
/// the first line starts one row down, and in the first column, or the third
/// when the first line is indented.
pub proof fn lemma_layout_first_char(
    paras: Seq<Seq<char>>,
    columns: int,
    first_line_indent: bool,
    first_line_newline: bool,
)
    requires
        paras.len() > 0,
        paras[0].len() > 0,
        columns > 2,
    ensures
        layout(paras, columns, first_line_indent, first_line_newline).0.len() > 0,
        layout(paras, columns, first_line_indent, first_line_newline).0[0] == (
            paras[0][0],
            if first_line_indent { 2int } else { 0int },
            if first_line_newline { 1int } else { 0int },
        ),
    decreases paras.len(),
{
    let n = paras.len();
    let prev = paras.drop_last();
    let (cells, cur) = layout(prev, columns, first_line_indent, first_line_newline);
    let start = enter_paragraph(n - 1, cur, first_line_indent, first_line_newline);
    let more = place_chars(paras.last(), start, columns).0;
    let all = layout(paras, columns, first_line_indent, first_line_newline).0;
    assert(all == cells + more);
    lemma_place_chars_len(paras.last(), start, columns);
    if n == 1 {
        assert(cells.len() == 0);
        assert(cur == (0int, 0int));
        lemma_place_chars_first(paras.last(), start, columns);
        assert(all[0] == more[0]);
    } else {
        assert(prev[0] == paras[0]);
        lemma_layout_first_char(prev, columns, first_line_indent, first_line_newline);
        assert(all[0] == cells[0]);
    }
}

} // verus!
