//! Text selection: normalization, hit testing, text extraction and flagging.

use vstd::prelude::*;
use crate::renderer::grid_renderer::{GridCell, CELL_FLAG_SELECTED};
use crate::text::{string_from_chars, trim_end_chars, trim_end_spec, is_alphanumeric, char_is_alphanumeric};

verus! {

/// Which half of a cell the selection anchor sits in.
/// Used for sub-cell precision when normalizing selection boundaries.
#[derive(Debug, Clone, Copy, PartialEq, Eq, Structural)]
pub enum Side {
    Left,
    Right,
}

/// Type of text selection.
#[derive(Debug, Clone, Copy, PartialEq, Eq, Structural)]
pub enum SelectionType {
    /// Click-and-drag character-level selection.
    Range,
    /// Double-click word selection.
    Word,
    /// Triple-click line selection.
    Line,
    /// Rectangular block selection (vi-mode Ctrl+V).
    VisualBlock,
}

/// A text selection region defined by start and end cell coordinates.
/// Row coordinates are absolute (negative = scrollback history, 0+ = screen).
/// `abs_row = viewport_row as i32 - display_offset as i32`
#[derive(Debug, Clone, Copy, PartialEq)]
pub struct Selection {
    /// Start position (absolute_row, col).
    pub start: (i32, usize),
    /// End position (absolute_row, col).
    pub end: (i32, usize),
    /// Type of selection.
    pub selection_type: SelectionType,
    /// Which side of the start cell the anchor sits in.
    pub start_side: Side,
    /// Which side of the end cell the anchor sits in.
    pub end_side: Side,
}

/// A selection boundary in reading order: first row and column, last row and column.
pub ghost struct Bounds {
    pub first_row: int,
    pub first_col: int,
    pub last_row: int,
    pub last_col: int,
}

/// Whether the selection's start comes first in reading order.
pub open spec fn start_comes_first(sel: Selection) -> bool {
    sel.start.0 < sel.end.0 || (sel.start.0 == sel.end.0 && sel.start.1 <= sel.end.1)
}

/// The selection's boundaries in reading order, with Side adjustments for
/// Range and VisualBlock selections: a Right-side first anchor starts at the
/// next cell, a Left-side last anchor ends at the previous cell (saturating at
/// 0); when that leaves a single row empty, the last column becomes one
/// before the first (saturating at 0).
pub open spec fn normalized(sel: Selection) -> Bounds {
    let (f, fs, l, ls) = if start_comes_first(sel) {
        (sel.start, sel.start_side, sel.end, sel.end_side)
    } else {
        (sel.end, sel.end_side, sel.start, sel.start_side)
    };
    if sel.selection_type == SelectionType::Word || sel.selection_type == SelectionType::Line {
        Bounds { first_row: f.0 as int, first_col: f.1 as int, last_row: l.0 as int, last_col: l.1 as int }
    } else {
        let fc: int = if fs == Side::Right { f.1 + 1 } else { f.1 as int };
        let lc: int = if ls == Side::Left { if l.1 == 0 { 0 } else { l.1 - 1 } } else { l.1 as int };
        if f.0 == l.0 && fc > lc {
            Bounds { first_row: f.0 as int, first_col: fc, last_row: l.0 as int, last_col: fc - 1 }
        } else {
            Bounds { first_row: f.0 as int, first_col: fc, last_row: l.0 as int, last_col: lc }
        }
    }
}

/// Column arithmetic on the selection does not overflow: a first anchor on
/// the right half of its cell moves one column on, which must fit.
pub open spec fn columns_fit(sel: Selection) -> bool {
    let (f, fs) = if start_comes_first(sel) {
        (sel.start, sel.start_side)
    } else {
        (sel.end, sel.end_side)
    };
    ||| sel.selection_type == SelectionType::Word
    ||| sel.selection_type == SelectionType::Line
    ||| fs == Side::Left
    ||| f.1 < usize::MAX
}

/// Normalize selection so start is before end in reading order, with Side
/// adjustments applied (see `normalized`).
pub fn normalize(selection: &Selection) -> (r: ((i32, usize), (i32, usize)))
    requires
        columns_fit(*selection),
    ensures
        r.0.0 == normalized(*selection).first_row,
        r.0.1 == normalized(*selection).first_col,
        r.1.0 == normalized(*selection).last_row,
        r.1.1 == normalized(*selection).last_col,
        r.0.0 <= r.1.0,
{
    let s = selection.start;
    let e = selection.end;
    let (first, first_side, last, last_side) = if s.0 < e.0 || (s.0 == e.0 && s.1 <= e.1) {
        (s, selection.start_side, e, selection.end_side)
    } else {
        (e, selection.end_side, s, selection.start_side)
    };
    if selection.selection_type == SelectionType::Word || selection.selection_type
        == SelectionType::Line {
        return (first, last);
    }
    let first_col = match first_side {
        Side::Right => first.1 + 1,
        Side::Left => first.1,
    };
    let last_col = match last_side {
        Side::Left => if last.1 == 0 { 0 } else { last.1 - 1 },
        Side::Right => last.1,
    };
    if first.0 == last.0 && first_col > last_col {
        return ((first.0, first_col), (last.0, first_col - 1));
    }
    ((first.0, first_col), (last.0, last_col))
}

/// Whether the cell at (absolute row, col) is inside the selection.
pub open spec fn selection_contains_spec(sel: Selection, row: int, col: int) -> bool {
    let b = normalized(sel);
    if row < b.first_row || row > b.last_row {
        false
    } else if sel.selection_type == SelectionType::VisualBlock {
        let lo = if b.first_col <= b.last_col { b.first_col } else { b.last_col };
        let hi = if b.first_col <= b.last_col { b.last_col } else { b.first_col };
        lo <= col <= hi
    } else if b.first_row == b.last_row {
        b.first_col <= col <= b.last_col
    } else if row == b.first_row {
        col >= b.first_col
    } else if row == b.last_row {
        col <= b.last_col
    } else {
        true
    }
}

/// Check if a cell at (absolute_row, col) is within the selection, in reading order.
pub fn selection_contains(selection: &Selection, row: i32, col: usize) -> (b: bool)
    requires
        columns_fit(*selection),
    ensures
        b == selection_contains_spec(*selection, row as int, col as int),
{
    let (start, end) = normalize(selection);
    if row < start.0 || row > end.0 {
        return false;
    }
    if selection.selection_type == SelectionType::VisualBlock {
        let col_min = if start.1 <= end.1 { start.1 } else { end.1 };
        let col_max = if start.1 <= end.1 { end.1 } else { start.1 };
        return col >= col_min && col <= col_max;
    }
    if start.0 == end.0 {
        col >= start.1 && col <= end.1
    } else if row == start.0 {
        col >= start.1
    } else if row == end.0 {
        col <= end.1
    } else {
        true
    }
}

/// Word characters: alphanumerics and '_'.
pub open spec fn is_word_char_spec(ch: char) -> bool {
    char_is_alphanumeric(ch) || ch == '_'
}

/// Check if a character is a word character (not whitespace or punctuation).
pub fn is_word_char(ch: char) -> (b: bool)
    ensures
        b == is_word_char_spec(ch),
{
    is_alphanumeric(ch) || ch == '_'
}

/// Columns `col..k` of the row at `row_start` hold word characters.
pub open spec fn word_run(cells: Seq<GridCell>, row_start: int, col: int, k: int) -> bool {
    forall|c: int| col <= c < k ==> is_word_char_spec(#[trigger] cells[row_start + c].ch)
}

/// Scanning right from `col` over word characters stays inside `cells`
/// until it reaches column `cols`: every column before `cols` that the scan
/// could reach lies inside the buffer.
pub open spec fn word_scan_in_bounds(cells: Seq<GridCell>, row_start: int, col: int, cols: int) -> bool {
    forall|k: int| col < k < cols && #[trigger] word_run(cells, row_start, col, k) ==> row_start + k < cells.len()
}

/// Find word boundaries around the given column in a row.
/// Returns (start_col, end_col) inclusive. Words are delimited by whitespace and punctuation.
pub fn find_word_boundaries(cells: &[GridCell], row: usize, col: usize, cols: usize) -> (r: (
    usize,
    usize,
))
    requires
        row * cols + col < cells@.len(),
        word_scan_in_bounds(cells@, row * cols, col as int, cols as int),
    ensures
        !is_word_char_spec(cells@[row * cols + col].ch) ==> r == (col, col),
        is_word_char_spec(cells@[row * cols + col].ch) ==> {
            &&& r.0 <= col <= r.1
            &&& (r.1 < cols || r.1 == col)
            &&& forall|c: int| r.0 <= c <= r.1 ==> is_word_char_spec(#[trigger] cells@[row * cols + c].ch)
            &&& (r.0 == 0 || !is_word_char_spec(cells@[row * cols + r.0 - 1].ch))
            &&& (r.1 + 1 >= cols || !is_word_char_spec(cells@[row * cols + r.1 + 1].ch))
        },
{
    let n = cells.len();
    let row_start = row * cols;
    let ch = cells[row_start + col].ch;
    if !is_word_char(ch) {
        return (col, col);
    }
    let mut start: usize = col;
    while start > 0 && is_word_char(cells[row_start + start - 1].ch)
        invariant
            row_start == row * cols,
            row_start + col < cells@.len(),
            n == cells@.len(),
            start <= col,
            forall|c: int| start <= c <= col ==> is_word_char_spec(#[trigger] cells@[row_start + c].ch),
        decreases start,
    {
        start = start - 1;
    }
    let mut end: usize = col;
    proof {
        if end + 1 < cols {
            assert(word_run(cells@, row_start as int, col as int, end + 1));
        }
    }
    while end + 1 < cols && is_word_char(cells[row_start + end + 1].ch)
        invariant
            row_start == row * cols,
            row_start + end < cells@.len(),
            n == cells@.len(),
            col <= end,
            end < cols || end == col,
            word_scan_in_bounds(cells@, row_start as int, col as int, cols as int),
            forall|c: int| col <= c <= end ==> is_word_char_spec(#[trigger] cells@[row_start + c].ch),
            end + 1 < cols ==> row_start + end + 1 < cells@.len(),
        decreases cols - end,
    {
        end = end + 1;
        proof {
            if end + 1 < cols {
                assert(word_run(cells@, row_start as int, col as int, end + 1));
            }
        }
    }
    (start, end)
}

// ── Text extraction ──────────────────────────────────────────────────

/// The characters of `cells[row_offset + c]` for `c` in `c0..=c1`, skipping
/// positions past the end of `cells`.
pub open spec fn cell_chars(cells: Seq<GridCell>, row_offset: int, c0: int, c1: int) -> Seq<char>
    decreases c1 - c0 + 1,
{
    if c1 < c0 {
        Seq::empty()
    } else {
        cell_chars(cells, row_offset, c0, c1 - 1) + if row_offset + c1 < cells.len() {
            seq![cells[row_offset + c1].ch]
        } else {
            Seq::empty()
        }
    }
}

/// The column range taken from each row of an extraction: `first_start` on
/// the first row and `mid_start` on the others; `last_end` on the last row
/// and `mid_end` on the others.
pub struct ColumnPlan {
    pub first_row: i32,
    pub last_row: i32,
    pub first_start: usize,
    pub last_end: usize,
    pub mid_start: usize,
    pub mid_end: usize,
}

pub open spec fn plan_start(p: ColumnPlan, abs_row: int) -> int {
    if abs_row == p.first_row { p.first_start as int } else { p.mid_start as int }
}

pub open spec fn plan_end(p: ColumnPlan, abs_row: int) -> int {
    if abs_row == p.last_row { p.last_end as int } else { p.mid_end as int }
}

/// The trimmed lines extracted for absolute rows `p.first_row .. upto`:
/// rows whose viewport row (`abs_row + display_offset`) lies outside
/// `0..rows` are skipped.
pub open spec fn extracted_lines(cells: Seq<GridCell>, cols: int, offset: int, p: ColumnPlan, upto: int) -> Seq<Seq<char>>
    decreases upto - p.first_row,
{
    if upto <= p.first_row {
        Seq::empty()
    } else {
        let prev = extracted_lines(cells, cols, offset, p, upto - 1);
        let abs_row = upto - 1;
        let vp = abs_row + offset;
        let rows = live_rows(cells.len() as int, cols);
        if vp < 0 || vp >= rows {
            prev
        } else {
            prev.push(trim_end_spec(cell_chars(cells, vp * cols, plan_start(p, abs_row), plan_end(p, abs_row))))
        }
    }
}

/// Lines joined with '\n'.
pub open spec fn join_lines(lines: Seq<Seq<char>>) -> Seq<char>
    decreases lines.len(),
{
    if lines.len() == 0 {
        Seq::empty()
    } else if lines.len() == 1 {
        lines[0]
    } else {
        join_lines(lines.drop_last()) + seq!['\n'] + lines.last()
    }
}

/// The text extracted by a plan: its lines joined with '\n'.
pub open spec fn plan_text(cells: Seq<GridCell>, cols: int, offset: int, p: ColumnPlan) -> Seq<char> {
    join_lines(extracted_lines(cells, cols, offset, p, p.last_row + 1))
}

/// The arithmetic of an extraction stays within machine integers: columns
/// plus cell count fit in usize, and the plan's first and last rows plus the
/// offset (as `i32`) stay within i32.
pub open spec fn extraction_fits(cells_len: int, cols: int, offset: usize, p: ColumnPlan) -> bool {
    &&& cols > 0
    &&& p.first_row <= p.last_row
    &&& i32::MIN <= p.first_row + wrapped_offset(offset)
    &&& p.last_row + wrapped_offset(offset) <= i32::MAX
    &&& p.first_start + cells_len < usize::MAX
    &&& p.last_end + cells_len < usize::MAX
    &&& p.mid_start + cells_len < usize::MAX
    &&& p.mid_end + cells_len < usize::MAX
}

fn row_chars(cells: &[GridCell], row_offset: usize, col_start: usize, col_end: usize) -> (line: Vec<char>)
    requires
        row_offset <= cells@.len(),
        col_end + cells@.len() < usize::MAX,
    ensures
        line@ == cell_chars(cells@, row_offset as int, col_start as int, col_end as int),
{
    let mut line: Vec<char> = Vec::new();
    let mut col: usize = col_start;
    if col_start > col_end {
        return line;
    }
    while col <= col_end
        invariant
            col_start <= col <= col_end + 1,
            row_offset <= cells@.len(),
            col_end + cells@.len() < usize::MAX,
            line@ == cell_chars(cells@, row_offset as int, col_start as int, col - 1),
        decreases col_end + 1 - col,
    {
        if row_offset + col < cells.len() {
            line.push(cells[row_offset + col].ch);
        }
        col = col + 1;
    }
    line
}

fn join_with_newlines(lines: &Vec<Vec<char>>) -> (out: Vec<char>)
    ensures
        out@ == join_lines(lines@.map_values(|l: Vec<char>| l@)),
{
    let ghost views = lines@.map_values(|l: Vec<char>| l@);
    let mut out: Vec<char> = Vec::new();
    let mut i: usize = 0;
    while i < lines.len()
        invariant
            i <= lines@.len(),
            views == lines@.map_values(|l: Vec<char>| l@),
            out@ == join_lines(views.subrange(0, i as int)),
        decreases lines.len() - i,
    {
        if i > 0 {
            out.push('\n');
        }
        let line = &lines[i];
        let mut j: usize = 0;
        let ghost before = out@;
        while j < line.len()
            invariant
                j <= line@.len(),
                out@ == before + line@.subrange(0, j as int),
            decreases line.len() - j,
        {
            out.push(line[j]);
            j = j + 1;
            assert(out@ =~= before + line@.subrange(0, j as int));
        }
        proof {
            assert(line@.subrange(0, line@.len() as int) =~= line@);
            let next = views.subrange(0, i + 1);
            assert(next.drop_last() =~= views.subrange(0, i as int));
            assert(next.last() == line@);
            if i == 0 {
                assert(next.len() == 1);
                assert(out@ =~= next[0]);
            }
        }
        i = i + 1;
    }
    assert(views.subrange(0, lines@.len() as int) =~= views);
    out
}

fn extract_plan(cells: &[GridCell], cols: usize, display_offset: usize, plan: &ColumnPlan) -> (text: String)
    requires
        extraction_fits(cells@.len() as int, cols as int, display_offset, *plan),
    ensures
        text@ == plan_text(cells@, cols as int, wrapped_offset(display_offset), *plan),
{
    let n = cells.len();
    let rows = n / cols;
    let off: i32 = display_offset as i32;
    let rows32: i32 = rows as i32;
    proof {
        lemma_live_rows(rows);
    }
    let mut lines: Vec<Vec<char>> = Vec::new();
    let mut r: i64 = plan.first_row as i64;
    let ghost views = lines@.map_values(|l: Vec<char>| l@);
    assert(views =~= extracted_lines(cells@, cols as int, wrapped_offset(display_offset), *plan, r as int));
    while r <= plan.last_row as i64
        invariant
            extraction_fits(cells@.len() as int, cols as int, display_offset, *plan),
            rows32 as int == (rows as int) as i32,
            live_rows(n as int, cols as int) == (if rows32 < 0 { 0 } else { rows32 as int }),
            live_rows(n as int, cols as int) <= rows,
            n == cells@.len(),
            rows == n / cols,
            off as int == wrapped_offset(display_offset),
            plan.first_row <= r <= plan.last_row + 1,
            lines@.map_values(|l: Vec<char>| l@) == extracted_lines(cells@, cols as int, wrapped_offset(display_offset), *plan, r as int),
        decreases plan.last_row + 1 - r,
    {
        let abs_row: i32 = r as i32;
        let vp_row: i32 = abs_row + off;
        let ghost before = lines@;
        if vp_row >= 0 && vp_row < rows32 {
            let vp = vp_row as usize;
            proof {
                assert(vp * cols + cols <= rows * cols) by (nonlinear_arith)
                    requires vp < rows;
                assert(rows * cols <= n) by (nonlinear_arith)
                    requires rows == n / cols, cols > 0;
            }
            let row_offset = vp * cols;
            let col_start = if abs_row == plan.first_row { plan.first_start } else { plan.mid_start };
            let col_end = if abs_row == plan.last_row { plan.last_end } else { plan.mid_end };
            let raw = row_chars(cells, row_offset, col_start, col_end);
            let line = trim_end_chars(&raw);
            lines.push(line);
            proof {
                assert(lines@.map_values(|l: Vec<char>| l@) =~= before.map_values(|l: Vec<char>| l@).push(line@));
            }
        }
        r = r + 1;
    }
    let joined = join_with_newlines(&lines);
    string_from_chars(joined.as_slice())
}

/// The selection and grid are small enough that extracting the selection
/// does not overflow machine integers (the unchecked column arithmetic of
/// the extraction would otherwise overflow and panic), and the anchor rows
/// plus the offset (as `i32`) stay within i32.
pub open spec fn selection_fits(sel: Selection, cells_len: int, cols: int, offset: usize) -> bool {
    &&& cols > 0
    &&& sel.start.1 + cells_len + 1 < usize::MAX
    &&& sel.end.1 + cells_len + 1 < usize::MAX
    &&& cols + cells_len < usize::MAX
    &&& i32::MIN <= sel.start.0 + wrapped_offset(offset) <= i32::MAX
    &&& i32::MIN <= sel.end.0 + wrapped_offset(offset) <= i32::MAX
}

/// Plan for Range/Word/Line text: partial first and last rows, full middle rows.
pub open spec fn range_plan(sel: Selection, cols: int) -> ColumnPlan {
    let b = normalized(sel);
    ColumnPlan {
        first_row: b.first_row as i32,
        last_row: b.last_row as i32,
        first_start: b.first_col as usize,
        last_end: b.last_col as usize,
        mid_start: 0,
        mid_end: (cols - 1) as usize,
    }
}

/// Plan for visual-block text: the same column range on every row.
pub open spec fn block_plan(sel: Selection) -> ColumnPlan {
    let b = normalized(sel);
    let lo = if b.first_col <= b.last_col { b.first_col } else { b.last_col };
    let hi = if b.first_col <= b.last_col { b.last_col } else { b.first_col };
    ColumnPlan {
        first_row: b.first_row as i32,
        last_row: b.last_row as i32,
        first_start: lo as usize,
        last_end: hi as usize,
        mid_start: lo as usize,
        mid_end: hi as usize,
    }
}

/// Plan for visual-line text: every row in full.
pub open spec fn lines_plan(sel: Selection, cols: int) -> ColumnPlan {
    let b = normalized(sel);
    ColumnPlan {
        first_row: b.first_row as i32,
        last_row: b.last_row as i32,
        first_start: 0,
        last_end: (cols - 1) as usize,
        mid_start: 0,
        mid_end: (cols - 1) as usize,
    }
}

/// The display offset as the `i32` that `display_offset as i32` gives.
pub open spec fn wrapped_offset(offset: usize) -> int {
    (offset as i32) as int
}

/// The viewport rows that flagging visits: the row count `cells_len / cols`
/// as the `i32` that `rows as i32` gives, or none when that is negative.
pub open spec fn live_rows(cells_len: int, cols: int) -> int {
    let r32 = ((cells_len / cols) as i32) as int;
    if r32 < 0 {
        0
    } else {
        r32
    }
}

/// The row count read back from `as i32`, when not negative, is at most the
/// row count.
proof fn lemma_live_rows(rows: usize)
    ensures
        (rows as i32) >= 0 ==> (rows as i32) as int <= rows,
{
    assert((rows as i32) >= 0 ==> (rows as i32) as usize <= rows) by (bit_vector);
}

/// What flagging needs of its arguments, on which it would otherwise
/// divide by zero or overflow: a positive column count, a first anchor that
/// can move one column on, and both anchor rows plus the offset (as `i32`)
/// staying within `i32`.
pub open spec fn flags_fit(sel: Selection, cols: int, offset: usize) -> bool {
    &&& cols > 0
    &&& columns_fit(sel)
    &&& i32::MIN <= sel.start.0 + wrapped_offset(offset) <= i32::MAX
    &&& i32::MIN <= sel.end.0 + wrapped_offset(offset) <= i32::MAX
}

/// Extract the selected text from grid cells as a UTF-8 string.
/// Trailing spaces per line are trimmed; lines are joined with '\n'.
/// `display_offset` converts absolute rows to viewport rows for cell lookup.
pub fn selected_text(cells: &[GridCell], selection: &Selection, cols: usize, display_offset: usize) -> (text: String)
    requires
        selection_fits(*selection, cells@.len() as int, cols as int, display_offset),
    ensures
        text@ == plan_text(cells@, cols as int, wrapped_offset(display_offset), range_plan(*selection, cols as int)),
{
    let (start, end) = normalize(selection);
    let plan = ColumnPlan {
        first_row: start.0,
        last_row: end.0,
        first_start: start.1,
        last_end: end.1,
        mid_start: 0,
        mid_end: cols - 1,
    };
    extract_plan(cells, cols, display_offset, &plan)
}

/// Extract selected text from a visual-block (rectangular) selection.
/// Each row's selected columns are extracted and joined with newlines.
pub fn selected_text_block(cells: &[GridCell], selection: &Selection, cols: usize, display_offset: usize) -> (text: String)
    requires
        selection_fits(*selection, cells@.len() as int, cols as int, display_offset),
    ensures
        text@ == plan_text(cells@, cols as int, wrapped_offset(display_offset), block_plan(*selection)),
{
    let (start, end) = normalize(selection);
    let col_min = if start.1 <= end.1 { start.1 } else { end.1 };
    let col_max = if start.1 <= end.1 { end.1 } else { start.1 };
    let plan = ColumnPlan {
        first_row: start.0,
        last_row: end.0,
        first_start: col_min,
        last_end: col_max,
        mid_start: col_min,
        mid_end: col_max,
    };
    extract_plan(cells, cols, display_offset, &plan)
}

/// Extract selected text from a visual-line selection (full rows).
pub fn selected_text_lines(cells: &[GridCell], selection: &Selection, cols: usize, display_offset: usize) -> (text: String)
    requires
        selection_fits(*selection, cells@.len() as int, cols as int, display_offset),
    ensures
        text@ == plan_text(cells@, cols as int, wrapped_offset(display_offset), lines_plan(*selection, cols as int)),
{
    let (start, end) = normalize(selection);
    let plan = ColumnPlan {
        first_row: start.0,
        last_row: end.0,
        first_start: 0,
        last_end: cols - 1,
        mid_start: 0,
        mid_end: cols - 1,
    };
    extract_plan(cells, cols, display_offset, &plan)
}

// ── Selection flags ──────────────────────────────────────────────────

/// Index of (viewport row, column) in a row-major grid.
pub open spec fn cell_index(vp: int, col: int, cols: int) -> int {
    vp * cols + col
}

/// The column of the rightmost non-space cell among columns `0..n` of the
/// row at `row_offset` (ignoring positions past the end), or 0 if there is none.
pub open spec fn last_occupied(cells: Seq<GridCell>, row_offset: int, n: int) -> int
    decreases n,
{
    if n <= 0 {
        0
    } else if row_offset + n - 1 < cells.len() && cells[row_offset + n - 1].ch != ' ' {
        n - 1
    } else {
        last_occupied(cells, row_offset, n - 1)
    }
}

/// The last column flagged on an absolute row of a non-block selection: the
/// selection's end column on its last row, the full width for Line
/// selections, and otherwise the last occupied column (at least the start
/// column on the first row).
pub open spec fn flag_end(cells: Seq<GridCell>, sel: Selection, cols: int, abs_row: int, row_offset: int) -> int {
    let b = normalized(sel);
    if abs_row == b.last_row {
        b.last_col
    } else if sel.selection_type == SelectionType::Line {
        cols - 1
    } else {
        let lo = last_occupied(cells, row_offset, cols);
        if abs_row == b.first_row {
            if lo >= b.first_col { lo } else { b.first_col }
        } else {
            lo
        }
    }
}

/// Whether the cell at viewport row `vp`, column `c` gets the selected flag.
pub open spec fn flagged(cells: Seq<GridCell>, sel: Selection, cols: int, offset: int, vp: int, c: int) -> bool {
    let b = normalized(sel);
    let abs_row = vp - offset;
    if abs_row < b.first_row || abs_row > b.last_row {
        false
    } else if sel.selection_type == SelectionType::VisualBlock {
        let lo = if b.first_col <= b.last_col { b.first_col } else { b.last_col };
        let hi = if b.first_col <= b.last_col { b.last_col } else { b.first_col };
        lo <= c <= hi && c <= cols - 1
    } else {
        let start = if abs_row == b.first_row { b.first_col } else { 0 };
        let end = flag_end(cells, sel, cols, abs_row, vp * cols);
        start <= c <= end && c <= cols - 1
    }
}

/// The cell with the selected flag added.
pub open spec fn with_selected(cell: GridCell) -> GridCell {
    GridCell { flags: cell.flags | CELL_FLAG_SELECTED, ..cell }
}

proof fn lemma_cell_index_unique(vp1: int, c1: int, vp2: int, c2: int, cols: int)
    requires
        0 <= vp1,
        0 <= vp2,
        0 <= c1 < cols,
        0 <= c2 < cols,
        cell_index(vp1, c1, cols) == cell_index(vp2, c2, cols),
    ensures
        vp1 == vp2,
        c1 == c2,
{
    if vp1 < vp2 {
        assert(vp1 * cols + c1 < vp2 * cols + c2) by (nonlinear_arith)
            requires vp1 < vp2, 0 <= c1 < cols, 0 <= c2;
    } else if vp2 < vp1 {
        assert(vp2 * cols + c2 < vp1 * cols + c1) by (nonlinear_arith)
            requires vp2 < vp1, 0 <= c2 < cols, 0 <= c1;
    }
}

proof fn lemma_cell_index_bound(vp: int, c: int, cols: int, rows: int)
    requires
        0 <= vp < rows,
        0 <= c < cols,
    ensures
        0 <= cell_index(vp, c, cols) < rows * cols,
{
    assert(vp * cols + c < rows * cols) by (nonlinear_arith)
        requires 0 <= vp < rows, 0 <= c < cols;
    assert(0 <= vp * cols) by (nonlinear_arith)
        requires 0 <= vp, 0 <= c < cols;
}

proof fn lemma_last_occupied_same_chars(a: Seq<GridCell>, b: Seq<GridCell>, row_offset: int, n: int)
    requires
        row_offset >= 0,
        a.len() == b.len(),
        forall|i: int| 0 <= i < a.len() ==> (#[trigger] a[i]).ch == b[i].ch,
    ensures
        last_occupied(a, row_offset, n) == last_occupied(b, row_offset, n),
    decreases n,
{
    if n > 0 {
        lemma_last_occupied_same_chars(a, b, row_offset, n - 1);
        if row_offset + n - 1 < a.len() && 0 <= row_offset + n - 1 {
            assert(a[row_offset + n - 1].ch == b[row_offset + n - 1].ch);
        }
    }
}

/// Return the column index of the rightmost non-space cell in a grid row.
/// Returns 0 if the row is entirely empty (spaces).
pub fn last_occupied_column(cells: &[GridCell], row_offset: usize, cols: usize) -> (c: usize)
    requires
        row_offset + cols <= usize::MAX,
    ensures
        c == last_occupied(cells@, row_offset as int, cols as int),
{
    let mut n: usize = cols;
    while n > 0
        invariant
            n <= cols,
            row_offset + cols <= usize::MAX,
            last_occupied(cells@, row_offset as int, cols as int) == last_occupied(cells@, row_offset as int, n as int),
        decreases n,
    {
        let col = n - 1;
        if row_offset + col < cells.len() && cells[row_offset + col].ch != ' ' {
            return col;
        }
        n = n - 1;
    }
    0
}

/// Set CELL_FLAG_SELECTED on all cells within the selection.
/// `display_offset` converts absolute rows to viewport rows for cell lookup.
/// For multi-line selections, middle rows and trailing portions of the start row
/// are clamped to the last occupied (non-space) column to avoid highlighting
/// empty regions beyond text content.
pub fn apply_selection_flags(cells: &mut [GridCell], selection: &Selection, cols: usize, display_offset: usize)
    requires
        flags_fit(*selection, cols as int, display_offset),
    ensures
        final(cells)@.len() == old(cells)@.len(),
        forall|vp: int, c: int|
            0 <= vp < (old(cells)@.len() as int) / (cols as int) && 0 <= c < cols ==> #[trigger] final(cells)@[cell_index(vp, c, cols as int)]
                == if vp < live_rows(old(cells)@.len() as int, cols as int) && flagged(
                old(cells)@,
                *selection,
                cols as int,
                wrapped_offset(display_offset),
                vp,
                c,
            ) {
                with_selected(old(cells)@[cell_index(vp, c, cols as int)])
            } else {
                old(cells)@[cell_index(vp, c, cols as int)]
            },
        forall|i: int|
            ((old(cells)@.len() as int) / (cols as int)) * cols <= i < old(cells)@.len() ==> #[trigger] final(cells)@[i] == old(cells)@[i],
{
    let ghost orig = cells@;
    let ghost colsi = cols as int;
    let (start, end) = normalize(selection);
    let n = cells.len();
    let rows = n / cols;
    let off: i32 = display_offset as i32;
    let rows32: i32 = rows as i32;
    let ghost offi = off as int;
    let ghost live = live_rows(n as int, cols as int);
    proof {
        assert(offi == wrapped_offset(display_offset));
        assert(rows32 as int == (rows as int) as i32);
        lemma_live_rows(rows);
        assert(live == (if rows32 < 0 { 0 } else { rows32 as int }));
    }
    let is_block = selection.selection_type == SelectionType::VisualBlock;
    let is_line = selection.selection_type == SelectionType::Line;
    let col_min = if start.1 <= end.1 { start.1 } else { end.1 };
    let col_max = if start.1 <= end.1 { end.1 } else { start.1 };
    proof {
        assert(rows * cols <= n) by (nonlinear_arith)
            requires rows == n / cols, cols > 0;
    }
    let mut r: i64 = start.0 as i64;
    while r <= end.0 as i64
        invariant
            flags_fit(*selection, colsi, display_offset),
            i32::MIN <= start.0 + offi <= i32::MAX,
            i32::MIN <= end.0 + offi <= i32::MAX,
            colsi == cols, offi == off,
            live == (if rows32 < 0 { 0 } else { rows32 as int }),
            live <= rows,
            start.0 == normalized(*selection).first_row,
            start.1 == normalized(*selection).first_col,
            end.0 == normalized(*selection).last_row,
            end.1 == normalized(*selection).last_col,
            is_block == (selection.selection_type == SelectionType::VisualBlock),
            is_line == (selection.selection_type == SelectionType::Line),
            col_min == (if start.1 <= end.1 { start.1 } else { end.1 }),
            col_max == (if start.1 <= end.1 { end.1 } else { start.1 }),
            n == orig.len(), cells@.len() == n,
            rows == n / cols, rows * cols <= n,
            start.0 <= r <= end.0 + 1,
            forall|i: int| 0 <= i < n ==> (#[trigger] cells@[i]).ch == orig[i].ch,
            forall|vp: int, c: int|
                0 <= vp < rows && 0 <= c < cols ==> #[trigger] cells@[cell_index(vp, c, colsi)]
                    == if vp < live && flagged(orig, *selection, colsi, offi, vp, c) && vp - offi < r {
                    with_selected(orig[cell_index(vp, c, colsi)])
                } else {
                    orig[cell_index(vp, c, colsi)]
                },
            forall|i: int| rows * cols <= i < n ==> #[trigger] cells@[i] == orig[i],
        decreases end.0 + 1 - r,
    {
        let abs_row: i32 = r as i32;
        let vp_row: i32 = abs_row + off;
        if vp_row >= 0 && vp_row < rows32 {
            let vp = vp_row as usize;
            assert(vp < live);
            proof {
                assert(vp * cols + cols <= rows * cols) by (nonlinear_arith)
                    requires vp < rows;
            }
            let row_offset = vp * cols;
            let col_start: usize = if is_block {
                col_min
            } else if abs_row == start.0 {
                start.1
            } else {
                0
            };
            let col_end: usize = if is_block {
                col_max
            } else if abs_row == end.0 {
                end.1
            } else if is_line {
                cols - 1
            } else {
                let last_occ = last_occupied_column(cells, row_offset, cols);
                proof {
                    lemma_last_occupied_same_chars(cells@, orig, row_offset as int, cols as int);
                }
                if abs_row == start.0 {
                    if last_occ >= start.1 { last_occ } else { start.1 }
                } else {
                    last_occ
                }
            };
            let stop: usize = if col_end <= cols - 1 { col_end } else { cols - 1 };
            proof {
                assert forall|c: int| 0 <= c < cols implies
                    flagged(orig, *selection, colsi, offi, vp as int, c) == (col_start <= c <= stop)
                by {
                    assert(vp as int * colsi == row_offset);
                }
            }
            let mut col: usize = col_start;
            if col_start <= stop {
            while col <= stop
                invariant
                    colsi == cols, offi == off,
                    n == orig.len(), cells@.len() == n,
                    rows == n / cols, rows * cols <= n,
                    vp < rows, vp < live, live <= rows, row_offset == vp * cols, row_offset + cols <= rows * cols,
                    vp_row == r + off, vp == vp_row,
                    stop < cols,
                    col_start <= col <= stop + 1,
                    forall|c: int| 0 <= c < cols ==> flagged(orig, *selection, colsi, offi, vp as int, c) == (col_start <= c <= stop),
                    forall|i: int| 0 <= i < n ==> (#[trigger] cells@[i]).ch == orig[i].ch,
                    forall|vp2: int, c: int|
                        0 <= vp2 < rows && 0 <= c < cols ==> #[trigger] cells@[cell_index(vp2, c, colsi)]
                            == if vp2 < live && flagged(orig, *selection, colsi, offi, vp2, c) && (vp2 - offi < r || (vp2 == vp && c < col)) {
                            with_selected(orig[cell_index(vp2, c, colsi)])
                        } else {
                            orig[cell_index(vp2, c, colsi)]
                        },
                    forall|i: int| rows * cols <= i < n ==> #[trigger] cells@[i] == orig[i],
                decreases stop + 1 - col,
            {
                let idx = row_offset + col;
                proof {
                    assert(idx == cell_index(vp as int, col as int, colsi));
                    assert(cells@[cell_index(vp as int, col as int, colsi)] == orig[cell_index(vp as int, col as int, colsi)]);
                }
                let mut cell = cells[idx];
                cell.flags = cell.flags | CELL_FLAG_SELECTED;
                let ghost prev = cells@;
                cells[idx] = cell;
                proof {
                    assert(idx == cell_index(vp as int, col as int, colsi));
                    assert forall|vp2: int, c: int| 0 <= vp2 < rows && 0 <= c < cols implies
                        #[trigger] cells@[cell_index(vp2, c, colsi)]
                            == if vp2 < live && flagged(orig, *selection, colsi, offi, vp2, c) && (vp2 - offi < r || (vp2 == vp && c < col + 1)) {
                            with_selected(orig[cell_index(vp2, c, colsi)])
                        } else {
                            orig[cell_index(vp2, c, colsi)]
                        }
                    by {
                        lemma_cell_index_bound(vp2, c, colsi, rows as int);
                        if cell_index(vp2, c, colsi) == idx {
                            lemma_cell_index_unique(vp2, c, vp as int, col as int, colsi);
                        } else {
                            assert(prev[cell_index(vp2, c, colsi)] == cells@[cell_index(vp2, c, colsi)]);
                        }
                    }
                    assert forall|i: int| 0 <= i < n implies (#[trigger] cells@[i]).ch == orig[i].ch by {
                        if i != idx {
                            assert(cells@[i] == prev[i]);
                        }
                    }
                }
                col = col + 1;
            }
            }
        }
        proof {
            assert forall|vp2: int, c: int| 0 <= vp2 < rows && 0 <= c < cols implies
                #[trigger] cells@[cell_index(vp2, c, colsi)]
                    == if vp2 < live && flagged(orig, *selection, colsi, offi, vp2, c) && vp2 - offi < r + 1 {
                    with_selected(orig[cell_index(vp2, c, colsi)])
                } else {
                    orig[cell_index(vp2, c, colsi)]
                }
            by {
                if vp2 - offi == r && !(0 <= vp_row && vp_row < rows32) {
                    assert(!(vp2 < live));
                }
            }
        }
        r = r + 1;
    }
    proof {
        assert forall|vp: int, c: int| 0 <= vp < rows && 0 <= c < cols && flagged(orig, *selection, colsi, offi, vp, c) implies vp - offi < r by {}
        assert(live == live_rows(n as int, cols as int));
    }
}


// ── Laws ─────────────────────────────────────────────────────────────

/// The same selection made in the other direction: its ends, and their
/// sides, swapped.
pub open spec fn reversed(sel: Selection) -> Selection {
    Selection {
        start: sel.end,
        end: sel.start,
        selection_type: sel.selection_type,
        start_side: sel.end_side,
        end_side: sel.start_side,
    }
}

/// A selection covers, extracts and flags the same cells whichever end the
/// drag started from, as long as its two ends are different cells; and
/// `selection_contains` accepts the one exactly when it accepts the other,
/// so `selection_contains(&reversed, r, c) == selection_contains(&sel, r, c)`
/// for every cell.
pub proof fn lemma_selection_direction_irrelevant(
    sel: Selection,
    cells: Seq<GridCell>,
    cols: int,
    offset: int,
    vp: int,
    row: int,
    col: int,
)
    requires
        sel.start != sel.end,
    ensures
        normalized(reversed(sel)) == normalized(sel),
        columns_fit(reversed(sel)) == columns_fit(sel),
        selection_contains_spec(reversed(sel), row, col) == selection_contains_spec(sel, row, col),
        flagged(cells, reversed(sel), cols, offset, vp, col) == flagged(cells, sel, cols, offset, vp, col),
        range_plan(reversed(sel), cols) == range_plan(sel, cols),
        block_plan(reversed(sel)) == block_plan(sel),
        lines_plan(reversed(sel), cols) == lines_plan(sel, cols),
{
}

/// Flagging a cell as selected only adds the selected bit: the flags it had
/// stay set, and flagging it again changes nothing.
pub proof fn lemma_selected_flag_only_adds(cell: GridCell)
    ensures
        with_selected(cell).flags & cell.flags == cell.flags,
        with_selected(cell).flags & CELL_FLAG_SELECTED == CELL_FLAG_SELECTED,
        with_selected(with_selected(cell)) == with_selected(cell),
        with_selected(cell).ch == cell.ch,
        with_selected(cell).fg == cell.fg,
        with_selected(cell).bg == cell.bg,
{
    let f = cell.flags;
    assert((f | CELL_FLAG_SELECTED) & f == f) by (bit_vector);
    assert((f | CELL_FLAG_SELECTED) & CELL_FLAG_SELECTED == CELL_FLAG_SELECTED) by (bit_vector);
    assert((f | CELL_FLAG_SELECTED) | CELL_FLAG_SELECTED == f | CELL_FLAG_SELECTED) by (bit_vector);
}

/// A visual block covers, on every row, the columns between the smaller and
/// the larger column of its bounds, whichever of them is further left: its
/// column range is never empty and never reversed (for every selection the
/// extraction accepts). When the drag starts on
/// an earlier row from the left half of a cell and ends on the right half of
/// one, the block is exactly the rows and columns the two anchors span, the
/// same as the rectangle dragged between its other two corners.
pub proof fn lemma_block_spans_anchor_columns(sel: Selection)
    ensures
        columns_fit(sel) ==> block_plan(sel).first_start <= block_plan(sel).last_end,
        block_plan(sel).mid_start == block_plan(sel).first_start,
        block_plan(sel).mid_end == block_plan(sel).last_end,
        sel.start.0 < sel.end.0 && sel.start_side == Side::Left && sel.end_side == Side::Right
            && sel.selection_type == SelectionType::VisualBlock ==> {
            &&& block_plan(sel).first_row == sel.start.0
            &&& block_plan(sel).last_row == sel.end.0
            &&& block_plan(sel).first_start == (if sel.start.1 <= sel.end.1 { sel.start.1 } else { sel.end.1 })
            &&& block_plan(sel).last_end == (if sel.start.1 <= sel.end.1 { sel.end.1 } else { sel.start.1 })
            &&& block_plan(sel) == block_plan(Selection {
                start: (sel.start.0, sel.end.1),
                end: (sel.end.0, sel.start.1),
                ..sel
            })
        },
{
}

} // verus!
