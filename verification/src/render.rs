//! Rendering a table as a monospace grid.

use crate::table::Table;
use crate::table::TableV;
use crate::table::spec_live_rows;
use crate::table::spec_row_view;
use crate::value::ValueV;
use crate::value::spec_value_str;
use vstd::prelude::*;

verus! {

/// `n` spaces.
pub open spec fn spec_spaces(n: int) -> Seq<char>
    decreases n,
{
    if n <= 0 {
        Seq::empty()
    } else {
        spec_spaces(n - 1) + " "@
    }
}

/// `n` dashes.
pub open spec fn spec_dashes(n: int) -> Seq<char>
    decreases n,
{
    if n <= 0 {
        Seq::empty()
    } else {
        spec_dashes(n - 1) + "-"@
    }
}

/// A cell text left-aligned in a field of width `w`.
pub open spec fn spec_pad(s: Seq<char>, w: int) -> Seq<char> {
    s + spec_spaces(w - s.len())
}

/// The width a column's values ask for, folded over the live rows from
/// index `r` on.
pub open spec fn spec_width_fold(lives: Seq<Seq<ValueV>>, i: int, r: int, acc: int) -> int
    decreases lives.len() - r,
{
    if r < 0 || r >= lives.len() {
        acc
    } else {
        let w = spec_value_str(lives[r][i]).len() as int;
        spec_width_fold(
            lives,
            i,
            r + 1,
            if w > acc {
                w
            } else {
                acc
            },
        )
    }
}

/// The display width of column `i`: at least three, at least the
/// column name, at least every value.
pub open spec fn spec_col_width(t: TableV, lives: Seq<Seq<ValueV>>, i: int) -> int {
    let base = if t.columns_info[i].name.len() as int > 3 {
        t.columns_info[i].name.len() as int
    } else {
        3
    };
    spec_width_fold(lives, i, 0, base)
}

/// One grid line over the given cell texts, from column `i` on.
pub open spec fn spec_line_from(cells: Seq<Seq<char>>, widths: Seq<int>, i: int) -> Seq<char>
    decreases cells.len() - i,
{
    if i < 0 || i >= cells.len() {
        "|\n"@
    } else {
        "| "@ + spec_pad(cells[i], widths[i]) + " "@ + spec_line_from(cells, widths, i + 1)
    }
}

/// The cell texts of one row.
pub open spec fn spec_row_cells(row: Seq<ValueV>) -> Seq<Seq<char>> {
    Seq::new(row.len(), |i: int| spec_value_str(row[i]))
}

/// The data lines of the grid, from live row `r` on.
pub open spec fn spec_rows_lines(lives: Seq<Seq<ValueV>>, widths: Seq<int>, r: int) -> Seq<char>
    decreases lives.len() - r,
{
    if r < 0 || r >= lives.len() {
        Seq::empty()
    } else {
        spec_line_from(spec_row_cells(lives[r]), widths, 0) + spec_rows_lines(lives, widths, r + 1)
    }
}

/// The column names as cell texts.
pub open spec fn spec_header_cells(t: TableV) -> Seq<Seq<char>> {
    Seq::new(t.col_count() as nat, |i: int| t.columns_info[i].name)
}

/// The separator dashes as cell texts.
pub open spec fn spec_sep_cells(t: TableV, widths: Seq<int>) -> Seq<Seq<char>> {
    Seq::new(t.col_count() as nat, |i: int| spec_dashes(widths[i]))
}

/// The widths of every column.
pub open spec fn spec_widths(t: TableV, lives: Seq<Seq<ValueV>>) -> Seq<int> {
    Seq::new(t.col_count() as nat, |i: int| spec_col_width(t, lives, i))
}

/// The full grid: header, separator, one line per live row.
pub open spec fn spec_render_table(t: TableV) -> Seq<char> {
    let lives = spec_live_rows(t.rows);
    let widths = spec_widths(t, lives);
    spec_line_from(spec_header_cells(t), widths, 0) + spec_line_from(
        spec_sep_cells(t, widths),
        widths,
        0,
    ) + spec_rows_lines(lives, widths, 0)
}

/// Builds `n` spaces.
fn spaces(n: usize) -> (r: String)
    ensures
        r@ == spec_spaces(n as int),
{
    let mut out = String::new();
    let mut i: usize = 0;
    proof {
        assert(out@ =~= spec_spaces(0));
    }
    while i < n
        invariant
            i <= n,
            out@ == spec_spaces(i as int),
        decreases n - i,
    {
        out.append(" ");
        i = i + 1;
    }
    out
}

/// Builds `n` dashes.
fn dashes(n: usize) -> (r: String)
    ensures
        r@ == spec_dashes(n as int),
{
    let mut out = String::new();
    let mut i: usize = 0;
    proof {
        assert(out@ =~= spec_dashes(0));
    }
    while i < n
        invariant
            i <= n,
            out@ == spec_dashes(i as int),
        decreases n - i,
    {
        out.append("-");
        i = i + 1;
    }
    out
}

/// Appends one grid line over the given cell texts.
fn append_line(out: &mut String, cells: &Vec<String>, widths: &Vec<usize>)
    requires
        cells@.len() == widths@.len(),
    ensures
        final(out)@ == old(out)@ + spec_line_from(spec_strs(cells@), spec_widths_view(widths@), 0),
{
    let ghost cellsv = spec_strs(cells@);
    let ghost widthsv = spec_widths_view(widths@);
    let n = cells.len();
    let mut i: usize = 0;
    let ghost base = out@;
    while i < n
        invariant
            i <= n,
            n == cells@.len(),
            n == widths@.len(),
            cellsv == spec_strs(cells@),
            widthsv == spec_widths_view(widths@),
            base + spec_line_from(cellsv, widthsv, 0) == out@ + spec_line_from(
                cellsv,
                widthsv,
                i as int,
            ),
        decreases n - i,
    {
        let ghost prev = out@;
        out.append("| ");
        out.append(cells[i].as_str());
        let w = widths[i];
        let cl = cells[i].unicode_len();
        if cl < w {
            out.append(spaces(w - cl).as_str());
        }
        out.append(" ");
        proof {
            assert(spec_pad(cellsv[i as int], widthsv[i as int]) =~= cellsv[i as int] + spec_spaces(
                widthsv[i as int] - cellsv[i as int].len(),
            ));
            if cl >= w {
                assert(spec_spaces(widthsv[i as int] - cellsv[i as int].len()) =~= Seq::<
                    char,
                >::empty());
            }
            assert(out@ =~= prev + "| "@ + spec_pad(cellsv[i as int], widthsv[i as int]) + " "@);
            assert(base + spec_line_from(cellsv, widthsv, 0) =~= out@ + spec_line_from(
                cellsv,
                widthsv,
                i as int + 1,
            ));
        }
        i = i + 1;
    }
    out.append("|\n");
    proof {
        assert(spec_line_from(cellsv, widthsv, n as int) == "|\n"@);
        assert(final(out)@ =~= base + spec_line_from(cellsv, widthsv, 0));
    }
}

/// The models of a vector of strings.
pub open spec fn spec_strs(s: Seq<String>) -> Seq<Seq<char>> {
    Seq::new(s.len(), |i: int| s[i]@)
}

/// The models of a vector of widths.
pub open spec fn spec_widths_view(s: Seq<usize>) -> Seq<int> {
    Seq::new(s.len(), |i: int| s[i] as int)
}

impl Table {
    /// Renders the table as a monospace grid: a header, a dashed
    /// separator, then one line per live row, each cell left-aligned to
    /// its column's width.
    pub fn render(&self) -> (r: String)
        requires
            self@.rows_sized(),
        ensures
            r@ == spec_render_table(self@),
    {
        let ghost t = self@;
        let ghost livesv = spec_live_rows(t.rows);
        let lives = self.existed_rows();
        proof {
            assert(crate::table::spec_rows_deep(lives@) =~= livesv);
            crate::transitions::lemma_live_rows_sized(t.rows, t.col_count());
        }
        let ghost widthsv = spec_widths(t, livesv);
        let width = self.columns_info.len();
        let n = lives.len();
        // column widths
        let mut widths: Vec<usize> = Vec::new();
        let mut i: usize = 0;
        while i < width
            invariant
                i <= width,
                width == t.col_count(),
                n == lives@.len(),
                n == livesv.len(),
                t == self@,
                livesv == spec_live_rows(t.rows),
                crate::table::spec_rows_deep(lives@) == livesv,
                forall|r2: int| 0 <= r2 < n ==> (#[trigger] livesv[r2]).len() == width,
                widths@.len() == i,
                widthsv == spec_widths(t, livesv),
                forall|x: int| 0 <= x < i ==> (#[trigger] widths@[x]) as int == widthsv[x],
            decreases width - i,
        {
            let name_len = self.columns_info[i].name.as_str().unicode_len();
            let mut w: usize = if name_len > 3 {
                name_len
            } else {
                3
            };
            let ghost base = w as int;
            let mut r: usize = 0;
            while r < n
                invariant
                    r <= n,
                    0 <= i < width,
                    n == lives@.len(),
                    n == livesv.len(),
                    forall|r2: int| 0 <= r2 < n ==> (#[trigger] livesv[r2]).len() == width,
                    crate::table::spec_rows_deep(lives@) == livesv,
                    spec_width_fold(livesv, i as int, 0, base) == spec_width_fold(
                        livesv,
                        i as int,
                        r as int,
                        w as int,
                    ),
                decreases n - r,
            {
                proof {
                    assert(spec_row_view(lives@[r as int]@) == livesv[r as int]);
                    assert(spec_row_view(lives@[r as int]@)[i as int] == livesv[r as int][i as int]);
                }
                let s = lives[r][i].to_string();
                let sl = s.as_str().unicode_len();
                if sl > w {
                    w = sl;
                }
                r = r + 1;
            }
            widths.push(w);
            i = i + 1;
        }
        proof {
            assert(spec_widths_view(widths@) =~= widthsv);
        }
        // header cells
        let mut header: Vec<String> = Vec::new();
        let mut i2: usize = 0;
        while i2 < width
            invariant
                i2 <= width,
                width == t.col_count(),
                t == self@,
                header@.len() == i2,
                forall|x: int| 0 <= x < i2 ==> (#[trigger] header@[x])@ == t.columns_info[x].name,
            decreases width - i2,
        {
            header.push(self.columns_info[i2].name.clone());
            i2 = i2 + 1;
        }
        // separator cells
        let mut sep: Vec<String> = Vec::new();
        let mut i3: usize = 0;
        while i3 < width
            invariant
                i3 <= width,
                width == t.col_count(),
                widths@.len() == width,
                spec_widths_view(widths@) == widthsv,
                sep@.len() == i3,
                forall|x: int| 0 <= x < i3 ==> (#[trigger] sep@[x])@ == spec_dashes(widthsv[x]),
            decreases width - i3,
        {
            sep.push(dashes(widths[i3]));
            i3 = i3 + 1;
        }
        let mut out = String::new();
        proof {
            assert(spec_strs(header@) =~= spec_header_cells(t));
            assert(spec_strs(sep@) =~= spec_sep_cells(t, widthsv));
        }
        append_line(&mut out, &header, &widths);
        append_line(&mut out, &sep, &widths);
        let ghost head_part = out@;
        // data lines
        let mut r2: usize = 0;
        while r2 < n
            invariant
                r2 <= n,
                n == lives@.len(),
                n == livesv.len(),
                forall|x: int| 0 <= x < n ==> (#[trigger] livesv[x]).len() == width,
                width == t.col_count(),
                widths@.len() == width,
                spec_widths_view(widths@) == widthsv,
                crate::table::spec_rows_deep(lives@) == livesv,
                head_part + spec_rows_lines(livesv, widthsv, 0) == out@ + spec_rows_lines(
                    livesv,
                    widthsv,
                    r2 as int,
                ),
            decreases n - r2,
        {
            let mut cells: Vec<String> = Vec::new();
            let mut x: usize = 0;
            while x < width
                invariant
                    x <= width,
                    0 <= r2 < n,
                    n == lives@.len(),
                    n == livesv.len(),
                    forall|y: int| 0 <= y < n ==> (#[trigger] livesv[y]).len() == width,
                    crate::table::spec_rows_deep(lives@) == livesv,
                    cells@.len() == x,
                    forall|y: int|
                        0 <= y < x ==> (#[trigger] cells@[y])@ == spec_value_str(
                            livesv[r2 as int][y],
                        ),
                decreases width - x,
            {
                proof {
                    assert(spec_row_view(lives@[r2 as int]@) == livesv[r2 as int]);
                    assert(spec_row_view(lives@[r2 as int]@)[x as int] == livesv[r2 as int][x as int]);
                }
                cells.push(lives[r2][x].to_string());
                x = x + 1;
            }
            proof {
                assert(spec_strs(cells@) =~= spec_row_cells(livesv[r2 as int]));
            }
            let ghost prev = out@;
            append_line(&mut out, &cells, &widths);
            proof {
                assert(head_part + spec_rows_lines(livesv, widthsv, 0) =~= out@ + spec_rows_lines(
                    livesv,
                    widthsv,
                    r2 as int + 1,
                ));
            }
            r2 = r2 + 1;
        }
        proof {
            assert(out@ =~= spec_render_table(t));
        }
        out
    }
}

} // verus!
