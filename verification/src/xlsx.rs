//! Spreadsheet rules: which files are spreadsheets, which reader streams
//! them, sheet names made safe for file names, and the layout of streamed
//! cells into CSV rows.
use crate::paths::{ext_is, extension_chars, has_extension};
use crate::text::{
    is_white_space, lemma_trim_of_trimmed, lemma_trim_range, string_from_chars, trim, trim_chars,
};
use vstd::prelude::*;

verus! {

pub open spec fn spec_is_spreadsheet(p: Seq<char>) -> bool {
    ||| has_extension(p, seq!['x', 'l', 's', 'x'])
    ||| has_extension(p, seq!['x', 'l', 's'])
    ||| has_extension(p, seq!['x', 'l', 's', 'm'])
    ||| has_extension(p, seq!['x', 'l', 's', 'b'])
    ||| has_extension(p, seq!['o', 'd', 's'])
}

/// Spreadsheet input, by extension: xlsx, xls, xlsm, xlsb or ods.
pub fn is_spreadsheet(path: &str) -> (b: bool)
    ensures
        b == spec_is_spreadsheet(path@),
{
    let ext = extension_chars(path);
    ext_is(&ext, &['x', 'l', 's', 'x']) || ext_is(&ext, &['x', 'l', 's']) || ext_is(
        &ext,
        &['x', 'l', 's', 'm'],
    ) || ext_is(&ext, &['x', 'l', 's', 'b']) || ext_is(&ext, &['o', 'd', 's'])
}

/// How a workbook is read: cell by cell for xlsx/xlsm and xlsb, whole otherwise.
#[derive(Clone, Copy, Debug, PartialEq, Eq, Structural)]
pub enum Backend {
    Xlsx,
    Xlsb,
    NonStreaming,
}

pub open spec fn spec_backend_for(p: Seq<char>) -> Backend {
    if has_extension(p, seq!['x', 'l', 's', 'x']) || has_extension(p, seq!['x', 'l', 's', 'm']) {
        Backend::Xlsx
    } else if has_extension(p, seq!['x', 'l', 's', 'b']) {
        Backend::Xlsb
    } else {
        Backend::NonStreaming
    }
}

pub fn backend_for(path: &str) -> (b: Backend)
    ensures
        b == spec_backend_for(path@),
{
    let ext = extension_chars(path);
    if ext_is(&ext, &['x', 'l', 's', 'x']) || ext_is(&ext, &['x', 'l', 's', 'm']) {
        Backend::Xlsx
    } else if ext_is(&ext, &['x', 'l', 's', 'b']) {
        Backend::Xlsb
    } else {
        Backend::NonStreaming
    }
}

/// Unicode general category Cc (`char::is_control`).
pub open spec fn is_control(c: char) -> bool {
    let u = c as u32;
    u <= 0x1F || (0x7F <= u && u <= 0x9F)
}

/// Characters unsafe in file names, and control characters, become `_`.
pub open spec fn safe_char(c: char) -> char {
    if c == '/' || c == '\\' || c == ':' || c == '*' || c == '?' || c == '"' || c == '<' || c
        == '>' || c == '|' || c == '\0' || is_control(c) {
        '_'
    } else {
        c
    }
}

pub open spec fn spec_sanitize_sheet_name(name: Seq<char>) -> Seq<char> {
    trim(name.map_values(|c: char| safe_char(c)))
}

/// Neither a character that file systems refuse in names nor a control character.
pub open spec fn is_file_name_safe(c: char) -> bool {
    !(c == '/' || c == '\\' || c == ':' || c == '*' || c == '?' || c == '"' || c == '<' || c
        == '>' || c == '|' || c == '\0' || is_control(c))
}

/// A sanitized sheet name holds only characters safe in a file name, has no
/// surrounding whitespace, is no longer than the sheet name, and sanitizing it
/// again changes nothing.
pub proof fn law_sanitize_sheet_name(name: Seq<char>)
    ensures
        forall|i: int|
            0 <= i < spec_sanitize_sheet_name(name).len() ==> is_file_name_safe(
                #[trigger] spec_sanitize_sheet_name(name)[i],
            ),
        trim(spec_sanitize_sheet_name(name)) == spec_sanitize_sheet_name(name),
        spec_sanitize_sheet_name(name).len() <= name.len(),
        spec_sanitize_sheet_name(spec_sanitize_sheet_name(name)) == spec_sanitize_sheet_name(name),
{
    let m = name.map_values(|c: char| safe_char(c));
    let r = spec_sanitize_sheet_name(name);
    let (a, b) = lemma_trim_range(m);
    assert forall|i: int| 0 <= i < r.len() implies is_file_name_safe(#[trigger] r[i]) by {
        assert(r[i] == m[a + i]);
        assert(m[a + i] == safe_char(name[a + i]));
    }
    lemma_trim_of_trimmed(r);
    assert(r.map_values(|c: char| safe_char(c)) =~= r) by {
        assert forall|i: int| 0 <= i < r.len() implies safe_char(r[i]) == r[i] by {
            assert(is_file_name_safe(r[i]));
        }
    }
}

fn safe_char_exec(c: char) -> (r: char)
    ensures
        r == safe_char(c),
{
    let u = c as u32;
    if c == '/' || c == '\\' || c == ':' || c == '*' || c == '?' || c == '"' || c == '<' || c
        == '>' || c == '|' || c == '\0' || u <= 0x1F || (0x7F <= u && u <= 0x9F) {
        '_'
    } else {
        c
    }
}

/// A sheet name usable inside a file name.
pub fn sanitize_sheet_name(name: &str) -> (r: String)
    ensures
        r@ == spec_sanitize_sheet_name(name@),
{
    let cs = crate::text::chars_of(name);
    let mut mapped: Vec<char> = Vec::new();
    let mut i: usize = 0;
    while i < cs.len()
        invariant
            i <= cs@.len(),
            mapped@ == cs@.take(i as int).map_values(|c: char| safe_char(c)),
        decreases cs@.len() - i,
    {
        mapped.push(safe_char_exec(cs[i]));
        i = i + 1;
        assert(mapped@ =~= cs@.take(i as int).map_values(|c: char| safe_char(c)));
    }
    assert(cs@.take(cs@.len() as int) =~= cs@);
    let t = trim_chars(mapped.as_slice());
    string_from_chars(t.as_slice())
}

// ---------------------------------------------------------------- cell layout

/// The used range of a sheet: first and last (row, column), inclusive.
#[derive(Clone, Copy, Debug)]
pub struct Dimensions {
    pub start: (u32, u32),
    pub end: (u32, u32),
}

pub open spec fn spec_width(d: Dimensions) -> int {
    let cols = if d.end.1 >= d.start.1 {
        d.end.1 - d.start.1
    } else {
        0
    } + 1;
    if cols >= 1 {
        cols
    } else {
        1
    }
}

/// Number of columns of the used range (at least one).
pub fn width_from_dimensions(d: Dimensions) -> (w: usize)
    requires
        d.end.1 < u32::MAX || d.start.1 > 0,
    ensures
        w == spec_width(d),
{
    let cols = d.end.1.saturating_sub(d.start.1) + 1;
    let w = cols as usize;
    if w >= 1 {
        w
    } else {
        1
    }
}

pub open spec fn empty_row(width: int) -> Seq<Seq<char>> {
    Seq::new(width as nat, |i: int| Seq::<char>::empty())
}

/// A streamed cell: row, column and text.
pub type CellAt = (u32, u32, Seq<char>);

/// Row `r` of the grid the cells describe, `width` columns counted from
/// column `first_col`: each position holds the last text given for it, and is
/// empty when no cell was given there.
pub open spec fn grid_row(cells: Seq<CellAt>, r: int, width: int, first_col: int) -> Seq<Seq<char>>
    decreases cells.len(),
{
    if cells.len() == 0 {
        empty_row(width)
    } else {
        let prev = grid_row(cells.drop_last(), r, width, first_col);
        let c = cells.last();
        if c.0 == r && first_col <= c.1 && c.1 - first_col < width {
            prev.update(c.1 - first_col, c.2)
        } else {
            prev
        }
    }
}

/// Cells come in row-major order, none above the first row of the range.
pub open spec fn row_major_from(cells: Seq<CellAt>, first_row: int) -> bool {
    &&& forall|i: int| 0 <= i < cells.len() ==> first_row <= (#[trigger] cells[i]).0
    &&& forall|i: int, j: int| 0 <= i < j < cells.len() ==> (#[trigger] cells[i]).0 <= (
    #[trigger] cells[j]).0
}

proof fn lemma_grid_row_untouched(cells: Seq<CellAt>, r: int, width: int, first_col: int)
    requires
        forall|i: int| 0 <= i < cells.len() ==> (#[trigger] cells[i]).0 != r,
    ensures
        grid_row(cells, r, width, first_col) == empty_row(width),
    decreases cells.len(),
{
    if cells.len() > 0 {
        let d = cells.drop_last();
        assert forall|i: int| 0 <= i < d.len() implies (#[trigger] d[i]).0 != r by {
            assert(d[i] == cells[i]);
        }
        lemma_grid_row_untouched(d, r, width, first_col);
    }
}

/// Lays streamed cells (row-major) out as CSV rows covering the used range:
/// rows without cells are emitted empty, and columns are counted from the
/// range's first column.
pub struct RowAssembler {
    start_col: u32,
    current_row: u32,
    row_buf: Vec<String>,
    saw_cell: bool,
    start_row: Ghost<int>,
    emitted: Ghost<int>,
    cells: Ghost<Seq<CellAt>>,
    rows_out: Ghost<Seq<Seq<Seq<char>>>>,
}

impl RowAssembler {
    pub closed spec fn buffer(self) -> Seq<Seq<char>> {
        self.row_buf@.map_values(|s: String| s@)
    }

    pub closed spec fn width(self) -> int {
        self.row_buf@.len() as int
    }

    pub closed spec fn row(self) -> int {
        self.current_row as int
    }

    pub closed spec fn first_col(self) -> int {
        self.start_col as int
    }

    pub closed spec fn saw_cell(self) -> bool {
        self.saw_cell
    }

    /// Rows emitted so far.
    pub closed spec fn emitted(self) -> int {
        self.emitted@
    }

    pub closed spec fn first_row(self) -> int {
        self.start_row@
    }

    /// The cells accepted so far, in order.
    pub closed spec fn cells(self) -> Seq<CellAt> {
        self.cells@
    }

    /// The rows emitted so far, in order.
    pub closed spec fn rows_out(self) -> Seq<Seq<Seq<char>>> {
        self.rows_out@
    }

    /// The row being filled is always the first row plus the rows emitted;
    /// for row-major cells, the emitted rows and the row being filled are the
    /// rows of the grid the cells describe.
    pub closed spec fn wf(self) -> bool {
        &&& self.current_row == self.start_row@ + self.emitted@
        &&& self.emitted@ >= 0
        &&& self.row_buf@.len() >= 1
        &&& self.rows_out@.len() == self.emitted@
        &&& row_major_from(self.cells@, self.start_row@) ==> {
            &&& self.current_row == if self.cells@.len() == 0 {
                self.start_row@
            } else {
                self.cells@.last().0 as int
            }
            &&& forall|k: int|
                0 <= k < self.rows_out@.len() ==> #[trigger] self.rows_out@[k] == grid_row(
                    self.cells@,
                    self.start_row@ + k,
                    self.row_buf@.len() as int,
                    self.start_col as int,
                )
            &&& self.buffer() == grid_row(
                self.cells@,
                self.current_row as int,
                self.row_buf@.len() as int,
                self.start_col as int,
            )
        }
    }

    pub fn new(d: Dimensions) -> (a: RowAssembler)
        requires
            d.end.1 < u32::MAX || d.start.1 > 0,
        ensures
            a.wf(),
            a.width() == spec_width(d),
            a.buffer() == empty_row(spec_width(d)),
            a.row() == d.start.0,
            a.first_row() == d.start.0,
            a.first_col() == d.start.1,
            a.emitted() == 0,
            !a.saw_cell(),
            a.cells() == Seq::<CellAt>::empty(),
            a.rows_out() == Seq::<Seq<Seq<char>>>::empty(),
    {
        let w = width_from_dimensions(d);
        let mut buf: Vec<String> = Vec::new();
        let mut i: usize = 0;
        while i < w
            invariant
                i <= w,
                buf@.len() == i,
                forall|k: int| 0 <= k < i ==> (#[trigger] buf@[k])@ == Seq::<char>::empty(),
            decreases w - i,
        {
            buf.push(String::new());
            i = i + 1;
        }
        let a = RowAssembler {
            start_col: d.start.1,
            current_row: d.start.0,
            row_buf: buf,
            saw_cell: false,
            start_row: Ghost(d.start.0 as int),
            emitted: Ghost(0),
            cells: Ghost(Seq::empty()),
            rows_out: Ghost(Seq::empty()),
        };
        assert(a.buffer() =~= empty_row(spec_width(d)));
        a
    }

    fn take_row(&mut self) -> (r: Vec<String>)
        ensures
            r@.map_values(|s: String| s@) == old(self).buffer(),
            final(self).buffer() == empty_row(old(self).width()),
            final(self).row_buf@.len() == old(self).row_buf@.len(),
            final(self).start_col == old(self).start_col,
            final(self).current_row == old(self).current_row,
            final(self).saw_cell == old(self).saw_cell,
            final(self).start_row == old(self).start_row,
            final(self).emitted == old(self).emitted,
            final(self).cells == old(self).cells,
            final(self).rows_out == old(self).rows_out,
    {
        let w = self.row_buf.len();
        let mut fresh: Vec<String> = Vec::new();
        let mut i: usize = 0;
        while i < w
            invariant
                i <= w,
                fresh@.len() == i,
                forall|k: int| 0 <= k < i ==> (#[trigger] fresh@[k])@ == Seq::<char>::empty(),
            decreases w - i,
        {
            fresh.push(String::new());
            i = i + 1;
        }
        std::mem::swap(&mut fresh, &mut self.row_buf);
        assert(self.buffer() =~= empty_row(old(self).width()));
        fresh
    }

    /// Take the cell at (`row`, `col`); the rows completed before `row` come
    /// back, the first one holding the cells gathered so far, the others empty.
    pub fn accept(&mut self, row: u32, col: u32, value: String) -> (rows: Vec<Vec<String>>)
        requires
            old(self).wf(),
        ensures
            final(self).wf(),
            final(self).saw_cell(),
            final(self).width() == old(self).width(),
            final(self).first_col() == old(self).first_col(),
            final(self).first_row() == old(self).first_row(),
            final(self).row() == if row > old(self).row() {
                row as int
            } else {
                old(self).row()
            },
            final(self).emitted() == old(self).emitted() + rows@.len(),
            rows@.len() == final(self).row() - old(self).row(),
            forall|k: int|
                0 <= k < rows@.len() ==> (#[trigger] rows@[k])@.map_values(|s: String| s@) == if k
                    == 0 {
                    old(self).buffer()
                } else {
                    empty_row(old(self).width())
                },
            ({
                let base = if rows@.len() > 0 {
                    empty_row(old(self).width())
                } else {
                    old(self).buffer()
                };
                let slot = col - old(self).first_col();
                final(self).buffer() == if 0 <= slot < old(self).width() {
                    base.update(slot, value@)
                } else {
                    base
                }
            }),
            final(self).cells() == old(self).cells().push((row, col, value@)),
            final(self).rows_out() == old(self).rows_out() + Seq::new(
                rows@.len(),
                |k: int| rows@[k]@.map_values(|s: String| s@),
            ),
    {
        self.saw_cell = true;
        let ghost start = self.current_row as int;
        let ghost buf0 = self.buffer();
        let ghost w = self.width();
        let ghost c0 = self.cells@;
        let ghost c1 = c0.push((row, col, value@));
        let ghost out0 = self.rows_out@;
        let ghost first_row = self.start_row@;
        let ghost first_col = self.start_col as int;
        let ghost ordered = row_major_from(c1, first_row);
        proof {
            if ordered {
                assert forall|i: int| 0 <= i < c0.len() implies first_row <= (#[trigger] c0[i]).0 by {
                    assert(c0[i] == c1[i]);
                }
                assert forall|i: int, j: int| 0 <= i < j < c0.len() implies (#[trigger] c0[i]).0
                    <= (#[trigger] c0[j]).0 by {
                    assert(c0[i] == c1[i] && c0[j] == c1[j]);
                }
                assert(row_major_from(c0, first_row));
                assert(start == if c0.len() == 0 {
                    first_row
                } else {
                    c0.last().0 as int
                });
                assert(c1[c0.len() as int] == (row, col, value@));
                assert(first_row <= c1[c0.len() as int].0);
                if c0.len() > 0 {
                    assert(c1[c0.len() - 1] == c0.last());
                    assert(c1[c0.len() - 1].0 <= c1[c0.len() as int].0);
                }
                assert(start <= row);
            }
        }
        let mut rows: Vec<Vec<String>> = Vec::new();
        while self.current_row < row
            invariant
                self.current_row == self.start_row@ + self.emitted@,
                self.emitted@ >= 0,
                self.row_buf@.len() == w,
                self.rows_out@.len() == self.emitted@,
                self.saw_cell,
                self.width() == w,
                w >= 1,
                start <= self.current_row,
                self.current_row <= row || self.current_row == start,
                self.first_col() == old(self).first_col(),
                self.first_row() == old(self).first_row(),
                self.start_row@ == first_row,
                self.start_col as int == first_col,
                self.cells@ == c0,
                c1 == c0.push((row, col, value@)),
                rows@.len() == self.current_row - start,
                self.emitted() == old(self).emitted() + rows@.len(),
                self.start_col == old(self).start_col,
                self.buffer() == if rows@.len() > 0 {
                    empty_row(w)
                } else {
                    buf0
                },
                forall|k: int|
                    0 <= k < rows@.len() ==> (#[trigger] rows@[k])@.map_values(|s: String| s@)
                        == if k == 0 {
                        buf0
                    } else {
                        empty_row(w)
                    },
                self.rows_out@ == out0 + Seq::new(
                    rows@.len(),
                    |k: int| rows@[k]@.map_values(|s: String| s@),
                ),
                ordered ==> row_major_from(c0, first_row),
                ordered ==> start == (if c0.len() == 0 {
                    first_row
                } else {
                    c0.last().0 as int
                }),
                ordered ==> start <= row,
                ordered ==> buf0 == grid_row(c0, start, w, first_col),
                ordered ==> forall|k: int|
                    0 <= k < out0.len() ==> #[trigger] out0[k] == grid_row(
                        c0,
                        first_row + k,
                        w,
                        first_col,
                    ),
                out0.len() == start - first_row,
            decreases row - self.current_row,
        {
            let ghost before_rows = rows@;
            let r = self.take_row();
            rows.push(r);
            self.rows_out = Ghost(self.rows_out@.push(r@.map_values(|s: String| s@)));
            self.current_row = self.current_row + 1;
            self.emitted = Ghost(self.emitted@ + 1);
            proof {
                assert(self.rows_out@ =~= out0 + Seq::new(
                    rows@.len(),
                    |k: int| rows@[k]@.map_values(|s: String| s@),
                ));
            }
        }
        if col >= self.start_col {
            let slot = (col - self.start_col) as usize;
            if slot < self.row_buf.len() {
                self.row_buf.set(slot, value);
                assert(self.buffer() =~= (if rows@.len() > 0 {
                    empty_row(w)
                } else {
                    buf0
                }).update(slot as int, value@));
            }
        }
        self.cells = Ghost(c1);
        proof {
            if ordered {
                let cur = self.current_row as int;
                assert(cur == row);
                assert(c1.last() == (row, col, value@));
                assert(c1.drop_last() =~= c0);
                // The rows below `row` are not touched by the new cell.
                assert forall|r: int| r != row implies #[trigger] grid_row(c1, r, w, first_col)
                    == grid_row(c0, r, w, first_col) by {}
                // Past the last cell of `c0`, a row of `c0` is empty.
                assert forall|r: int| start < r implies #[trigger] grid_row(c0, r, w, first_col)
                    == empty_row(w) by {
                    assert forall|i: int| 0 <= i < c0.len() implies (#[trigger] c0[i]).0 != r by {
                        if c0.len() > 0 {
                            assert(c0[i].0 <= c0.last().0);
                        }
                    }
                    lemma_grid_row_untouched(c0, r, w, first_col);
                }
                assert forall|k: int|
                    0 <= k < self.rows_out@.len() implies #[trigger] self.rows_out@[k] == grid_row(
                    c1,
                    first_row + k,
                    w,
                    first_col,
                ) by {
                    if k < out0.len() {
                        assert(self.rows_out@[k] == out0[k]);
                    } else {
                        let j = k - out0.len();
                        assert(self.rows_out@[k] == rows@[j]@.map_values(|s: String| s@));
                        if j > 0 {
                            assert(first_row + k > start);
                        }
                    }
                }
                if rows@.len() > 0 {
                    assert(grid_row(c0, cur, w, first_col) == empty_row(w));
                }
                assert(self.buffer() == grid_row(c1, cur, w, first_col));
            }
        }
        rows
    }

    /// The last row, if any cell was seen.
    pub fn finish(self) -> (r: Option<Vec<String>>)
        ensures
            match r {
                Some(row) => self.saw_cell() && row@.map_values(|s: String| s@) == self.buffer(),
                None => !self.saw_cell(),
            },
    {
        if self.saw_cell {
            Some(self.row_buf)
        } else {
            None
        }
    }
}

/// Rows keep their place: after any cells, the row being filled is the first
/// row of the range plus the number of rows already emitted, so the k-th
/// emitted row is sheet row `first_row + k`.
pub proof fn law_rows_keep_position(a: RowAssembler)
    requires
        a.wf(),
    ensures
        a.row() == a.first_row() + a.emitted(),
{
}

/// Streaming lays out the whole range: for cells given in row-major order,
/// the k-th emitted row is row `first_row + k` of the grid the cells
/// describe (empty where no cell was given, the last text where several were),
/// and the row being filled is the grid's row at the current position.
pub proof fn law_stream_matches_grid(a: RowAssembler)
    requires
        a.wf(),
        row_major_from(a.cells(), a.first_row()),
    ensures
        forall|k: int|
            0 <= k < a.rows_out().len() ==> #[trigger] a.rows_out()[k] == grid_row(
                a.cells(),
                a.first_row() + k,
                a.width(),
                a.first_col(),
            ),
        a.buffer() == grid_row(a.cells(), a.row(), a.width(), a.first_col()),
        a.rows_out().len() == a.emitted(),
{
}

} // verus!
