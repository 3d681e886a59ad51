//! The Parquet viewer's rules: display truncation and column widths of the
//! preview table, and how keys move the selection or pick an export.
use crate::export::ExportFormat;
use crate::text::{chars_of, string_from_chars};
use vstd::prelude::*;

verus! {

/// Rows read for the preview.
pub const PREVIEW_ROWS: usize = 1000;

/// Widest displayed cell, in characters.
pub const CELL_MAX: usize = 40;

/// Rows moved by page up and page down.
pub const PAGE_STEP: usize = 20;

/// A cell as displayed: at most `CELL_MAX` characters, an ellipsis marking elision.
pub open spec fn spec_truncate(v: Seq<char>) -> Seq<char> {
    if v.len() <= CELL_MAX {
        v
    } else {
        v.take(CELL_MAX - 1).push('…')
    }
}

pub fn truncate(value: &str) -> (r: String)
    ensures
        r@ == spec_truncate(value@),
{
    let cs = chars_of(value);
    if cs.len() <= CELL_MAX {
        return value.to_owned();
    }
    let mut kept: Vec<char> = Vec::new();
    let mut i: usize = 0;
    while i < CELL_MAX - 1
        invariant
            i <= CELL_MAX - 1,
            cs@.len() > CELL_MAX,
            kept@ == cs@.take(i as int),
        decreases CELL_MAX - 1 - i,
    {
        kept.push(cs[i]);
        i = i + 1;
        assert(kept@ =~= cs@.take(i as int));
    }
    kept.push('…');
    string_from_chars(kept.as_slice())
}

/// Longest cell of column `col` over the rows (rows too short are skipped).
pub open spec fn max_cell_len(rows: Seq<Vec<String>>, col: int) -> nat
    decreases rows.len(),
{
    if rows.len() == 0 {
        0
    } else {
        let m = max_cell_len(rows.drop_last(), col);
        let r = rows.last();
        if 0 <= col < r@.len() && r@[col]@.len() > m {
            r@[col]@.len()
        } else {
            m
        }
    }
}

pub open spec fn clamp(x: int, lo: int, hi: int) -> int {
    if x < lo {
        lo
    } else if x > hi {
        hi
    } else {
        x
    }
}

/// Display width of a column: the longer of its name and its widest cell,
/// clamped to `3..=CELL_MAX`.
pub open spec fn spec_column_width(name: Seq<char>, rows: Seq<Vec<String>>, col: int) -> int {
    let m = max_cell_len(rows, col);
    clamp(if name.len() > m {
        name.len() as int
    } else {
        m as int
    }, 3, CELL_MAX as int)
}

fn char_count(s: &String) -> (n: usize)
    ensures
        n == s@.len(),
{
    chars_of(s.as_str()).len()
}

pub fn column_widths(columns: &Vec<String>, rows: &Vec<Vec<String>>) -> (widths: Vec<u16>)
    ensures
        widths@.len() == columns@.len(),
        forall|c: int|
            0 <= c < columns@.len() ==> (#[trigger] widths@[c]) == spec_column_width(
                columns@[c]@,
                rows@,
                c,
            ),
{
    let mut widths: Vec<u16> = Vec::new();
    let mut c: usize = 0;
    while c < columns.len()
        invariant
            c <= columns@.len(),
            widths@.len() == c,
            forall|k: int|
                0 <= k < c ==> (#[trigger] widths@[k]) == spec_column_width(columns@[k]@, rows@, k),
        decreases columns@.len() - c,
    {
        let mut cell_max: usize = 0;
        let mut r: usize = 0;
        while r < rows.len()
            invariant
                r <= rows@.len(),
                cell_max == max_cell_len(rows@.take(r as int), c as int),
            decreases rows@.len() - r,
        {
            proof {
                assert(rows@.take(r + 1).drop_last() =~= rows@.take(r as int));
            }
            if c < rows[r].len() {
                let n = char_count(&rows[r][c]);
                if n > cell_max {
                    cell_max = n;
                }
            }
            r = r + 1;
        }
        proof {
            assert(rows@.take(rows@.len() as int) =~= rows@);
        }
        let name_len = char_count(&columns[c]);
        let m = if name_len > cell_max {
            name_len
        } else {
            cell_max
        };
        let w: u16 = if m < 3 {
            3
        } else if m > CELL_MAX {
            CELL_MAX as u16
        } else {
            m as u16
        };
        widths.push(w);
        c = c + 1;
    }
    widths
}

// ---------------------------------------------------------------- navigation

/// A key press, as the terminal reports it.
#[derive(Clone, Copy, Debug, PartialEq, Eq, Structural)]
pub enum ViewerKey {
    Char(char),
    Esc,
    Down,
    Up,
    PageDown,
    PageUp,
    Home,
    End,
    Right,
    Left,
    Other,
}

/// What the viewer does after a key.
#[derive(Clone, Copy, Debug, PartialEq, Eq, Structural)]
pub enum ViewerAction {
    Quit,
    Export(ExportFormat),
    Stay,
}

/// Selected row and first shown column of a preview of `row_count` rows and
/// `col_count` columns.
#[derive(Clone, Copy, Debug, PartialEq, Eq, Structural)]
pub struct ViewerState {
    pub selected: usize,
    pub col_offset: usize,
    pub row_count: usize,
    pub col_count: usize,
}

pub open spec fn last_index(n: usize) -> int {
    if n == 0 {
        0
    } else {
        n - 1
    }
}

pub open spec fn min_int(a: int, b: int) -> int {
    if a <= b {
        a
    } else {
        b
    }
}

pub open spec fn minus_floor(a: int, b: int) -> int {
    if a >= b {
        a - b
    } else {
        0
    }
}

impl ViewerState {
    /// The selection stays on a row of the preview and the offset on a column.
    pub open spec fn wf(self) -> bool {
        &&& self.selected <= last_index(self.row_count)
        &&& self.col_offset <= last_index(self.col_count)
    }

    pub open spec fn with_selected(self, s: int) -> ViewerState {
        ViewerState { selected: s as usize, ..self }
    }

    pub open spec fn with_offset(self, o: int) -> ViewerState {
        ViewerState { col_offset: o as usize, ..self }
    }

    /// The state and action after `key`.
    pub open spec fn spec_handle_key(self, key: ViewerKey) -> (ViewerState, ViewerAction) {
        let last_row = last_index(self.row_count);
        let last_col = last_index(self.col_count);
        match key {
            ViewerKey::Char('q') | ViewerKey::Esc => (self, ViewerAction::Quit),
            ViewerKey::Down | ViewerKey::Char('j') => (
                self.with_selected(min_int(self.selected + 1, last_row)),
                ViewerAction::Stay,
            ),
            ViewerKey::Up | ViewerKey::Char('k') => (
                self.with_selected(minus_floor(self.selected as int, 1)),
                ViewerAction::Stay,
            ),
            ViewerKey::PageDown => (
                self.with_selected(min_int(self.selected + PAGE_STEP, last_row)),
                ViewerAction::Stay,
            ),
            ViewerKey::PageUp => (
                self.with_selected(minus_floor(self.selected as int, PAGE_STEP as int)),
                ViewerAction::Stay,
            ),
            ViewerKey::Home => (self.with_selected(0), ViewerAction::Stay),
            ViewerKey::End => (self.with_selected(last_row), ViewerAction::Stay),
            ViewerKey::Right | ViewerKey::Char('l') => (
                self.with_offset(min_int(self.col_offset + 1, last_col)),
                ViewerAction::Stay,
            ),
            ViewerKey::Left | ViewerKey::Char('h') => (
                self.with_offset(minus_floor(self.col_offset as int, 1)),
                ViewerAction::Stay,
            ),
            ViewerKey::Char(c) => match ExportFormat::spec_from_hotkey(c) {
                Some(f) => (self, ViewerAction::Export(f)),
                None => (self, ViewerAction::Stay),
            },
            _ => (self, ViewerAction::Stay),
        }
    }

    /// The moves of `key` stay within `usize`.
    pub open spec fn key_fits(self, key: ViewerKey) -> bool {
        match key {
            ViewerKey::Down | ViewerKey::Char('j') => self.selected < usize::MAX,
            ViewerKey::PageDown => self.selected + PAGE_STEP <= usize::MAX,
            ViewerKey::Right | ViewerKey::Char('l') => self.col_offset < usize::MAX,
            _ => true,
        }
    }

    /// Whether `key` can be handled without leaving the range of `usize`.
    pub fn fits(&self, key: ViewerKey) -> (b: bool)
        ensures
            b == self.key_fits(key),
    {
        match key {
            ViewerKey::Down | ViewerKey::Char('j') => self.selected < usize::MAX,
            ViewerKey::PageDown => self.selected <= usize::MAX - PAGE_STEP,
            ViewerKey::Right | ViewerKey::Char('l') => self.col_offset < usize::MAX,
            _ => true,
        }
    }

    pub fn new(row_count: usize, col_count: usize) -> (s: ViewerState)
        ensures
            s.wf(),
            s.selected == 0,
            s.col_offset == 0,
            s.row_count == row_count,
            s.col_count == col_count,
    {
        ViewerState { selected: 0, col_offset: 0, row_count, col_count }
    }

    fn last_row(&self) -> (r: usize)
        ensures
            r == last_index(self.row_count),
    {
        if self.row_count == 0 {
            0
        } else {
            self.row_count - 1
        }
    }

    fn last_col(&self) -> (r: usize)
        ensures
            r == last_index(self.col_count),
    {
        if self.col_count == 0 {
            0
        } else {
            self.col_count - 1
        }
    }

    /// Apply `key`; quitting and exporting leave the position unchanged.
    pub fn handle_key(&mut self, key: ViewerKey) -> (a: ViewerAction)
        requires
            old(self).wf(),
            old(self).key_fits(key),
        ensures
            (*final(self), a) == old(self).spec_handle_key(key),
            final(self).wf(),
    {
        let last_row = self.last_row();
        let last_col = self.last_col();
        match key {
            ViewerKey::Char('q') | ViewerKey::Esc => {
                return ViewerAction::Quit;
            },
            ViewerKey::Down | ViewerKey::Char('j') => {
                let n = self.selected + 1;
                self.selected = if n < last_row {
                    n
                } else {
                    last_row
                };
            },
            ViewerKey::Up | ViewerKey::Char('k') => {
                self.selected = self.selected.saturating_sub(1);
            },
            ViewerKey::PageDown => {
                let n = self.selected + PAGE_STEP;
                self.selected = if n < last_row {
                    n
                } else {
                    last_row
                };
            },
            ViewerKey::PageUp => {
                self.selected = self.selected.saturating_sub(PAGE_STEP);
            },
            ViewerKey::Home => {
                self.selected = 0;
            },
            ViewerKey::End => {
                self.selected = last_row;
            },
            ViewerKey::Right | ViewerKey::Char('l') => {
                let n = self.col_offset + 1;
                self.col_offset = if n < last_col {
                    n
                } else {
                    last_col
                };
            },
            ViewerKey::Left | ViewerKey::Char('h') => {
                self.col_offset = self.col_offset.saturating_sub(1);
            },
            ViewerKey::Char(c) => {
                if let Some(format) = ExportFormat::from_hotkey(c) {
                    return ViewerAction::Export(format);
                }
            },
            _ => {},
        }
        ViewerAction::Stay
    }
}

/// Whatever keys are pressed, the selection stays within the preview rows
/// and the column offset within its columns.
pub proof fn law_navigation_stays_in_bounds(s: ViewerState, key: ViewerKey)
    requires
        s.wf(),
    ensures
        s.spec_handle_key(key).0.wf(),
        s.spec_handle_key(key).0.row_count == s.row_count,
        s.spec_handle_key(key).0.col_count == s.col_count,
{
}

/// Paging moves the selection by 20 rows, stopping at the first and last
/// row, and a page up undoes a page down that was not stopped at the end;
/// single steps move by one row the same way.
pub proof fn law_paging_moves_twenty_rows(s: ViewerState)
    requires
        s.wf(),
    ensures
        s.spec_handle_key(ViewerKey::PageUp).0.selected == (if s.selected >= 20 {
            s.selected - 20
        } else {
            0
        }),
        s.spec_handle_key(ViewerKey::PageDown).0.selected == (if s.selected + 20 <= last_index(
            s.row_count,
        ) {
            s.selected + 20
        } else {
            last_index(s.row_count)
        }),
        s.selected + 20 <= last_index(s.row_count) ==> s.spec_handle_key(
            ViewerKey::PageDown,
        ).0.spec_handle_key(ViewerKey::PageUp).0 == s,
        s.spec_handle_key(ViewerKey::Up).0.selected == (if s.selected >= 1 {
            s.selected - 1
        } else {
            0
        }),
        s.selected + 1 <= last_index(s.row_count) ==> s.spec_handle_key(
            ViewerKey::Down,
        ).0.spec_handle_key(ViewerKey::Up).0 == s,
{
}

/// Only `q` and Escape quit, and an export is chosen only by its hotkey.
pub proof fn law_quit_and_export_keys(s: ViewerState, key: ViewerKey)
    ensures
        s.spec_handle_key(key).1 == ViewerAction::Quit <==> (key == ViewerKey::Char('q') || key
            == ViewerKey::Esc),
        s.spec_handle_key(key).1 matches ViewerAction::Export(f) ==> key == ViewerKey::Char(
            f.spec_hotkey(),
        ),
{
}

} // verus!
