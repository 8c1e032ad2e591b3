//! Damage tracking: which grid rows changed between frames, per pane, and
//! frame timing metrics.

use std::time::Duration;
use vstd::prelude::*;
use crate::pane::PaneId;
use crate::renderer::grid_renderer::GridCell;
use crate::clock::{duration_nanos, duration_from_nanos, nanos_of, max_duration_nanos};

verus! {

// ── Grid diff ────────────────────────────────────────────────────────

/// Whether row `row` (of width `cols`) differs between two grids of equal size.
pub open spec fn row_differs(prev: Seq<GridCell>, curr: Seq<GridCell>, cols: int, row: int) -> bool {
    prev.subrange(row * cols, row * cols + cols) != curr.subrange(row * cols, row * cols + cols)
}

/// Per-row dirty flags between two grids: empty when `cols` is 0; all rows of
/// the larger grid dirty when the sizes differ; otherwise one flag per
/// complete row of `curr`, set when that row differs.
pub open spec fn grid_diff(prev: Seq<GridCell>, curr: Seq<GridCell>, cols: int) -> Seq<bool> {
    if cols == 0 {
        Seq::empty()
    } else if prev.len() != curr.len() {
        let prev_rows = prev.len() as int / cols;
        let curr_rows = curr.len() as int / cols;
        Seq::new(if prev_rows >= curr_rows { prev_rows as nat } else { curr_rows as nat }, |i: int| true)
    } else {
        Seq::new((curr.len() as int / cols) as nat, |row: int| row_differs(prev, curr, cols, row))
    }
}

fn all_true(n: usize) -> (v: Vec<bool>)
    ensures
        v@ == Seq::new(n as nat, |i: int| true),
{
    let mut v: Vec<bool> = Vec::new();
    while v.len() < n
        invariant
            v@.len() <= n,
            forall|i: int| 0 <= i < v@.len() ==> v@[i],
        decreases n - v@.len(),
    {
        v.push(true);
    }
    assert(v@ =~= Seq::new(n as nat, |i: int| true));
    v
}

fn all_false(n: usize) -> (v: Vec<bool>)
    ensures
        v@ == Seq::new(n as nat, |i: int| false),
{
    let mut v: Vec<bool> = Vec::new();
    while v.len() < n
        invariant
            v@.len() <= n,
            forall|i: int| 0 <= i < v@.len() ==> !v@[i],
        decreases n - v@.len(),
    {
        v.push(false);
    }
    assert(v@ =~= Seq::new(n as nat, |i: int| false));
    v
}

fn rows_differ(prev: &[GridCell], curr: &[GridCell], start: usize, cols: usize) -> (b: bool)
    requires
        prev@.len() == curr@.len(),
        start + cols <= curr@.len(),
    ensures
        b == (prev@.subrange(start as int, start + cols) != curr@.subrange(start as int, start + cols)),
{
    let n = curr.len();
    let mut k: usize = 0;
    while k < cols
        invariant
            n == curr@.len(),
            prev@.len() == curr@.len(),
            start + cols <= curr@.len(),
            k <= cols,
            forall|i: int| start <= i < start + k ==> prev@[i] == curr@[i],
        decreases cols - k,
    {
        if prev[start + k] != curr[start + k] {
            assert(prev@.subrange(start as int, start + cols)[k as int] != curr@.subrange(start as int, start + cols)[k as int]);
            return true;
        }
        k = k + 1;
    }
    assert(prev@.subrange(start as int, start + cols) =~= curr@.subrange(start as int, start + cols));
    false
}

/// Compare two grid cell buffers row-by-row and return per-row dirty flags.
///
/// Returns one entry per row. A row is dirty if any cell in that row differs
/// between `prev` and `curr`. If the slices have different lengths, all rows
/// of the larger grid are marked dirty (full damage).
pub fn diff_grid_rows(prev: &[GridCell], curr: &[GridCell], cols: usize) -> (dirty: Vec<bool>)
    ensures
        dirty@ == grid_diff(prev@, curr@, cols as int),
{
    if cols == 0 {
        let v: Vec<bool> = Vec::new();
        assert(v@ =~= grid_diff(prev@, curr@, cols as int));
        return v;
    }
    let prev_rows = prev.len() / cols;
    let curr_rows = curr.len() / cols;
    if prev.len() != curr.len() {
        let max_rows = if prev_rows >= curr_rows { prev_rows } else { curr_rows };
        return all_true(max_rows);
    }
    let mut dirty: Vec<bool> = Vec::new();
    let mut row: usize = 0;
    let n = curr.len();
    while row < curr_rows
        invariant
            n == curr@.len(),
            cols > 0,
            prev@.len() == curr@.len(),
            curr_rows == curr@.len() as int / cols as int,
            row <= curr_rows,
            dirty@.len() == row,
            forall|r: int| 0 <= r < row ==> dirty@[r] == row_differs(prev@, curr@, cols as int, r),
        decreases curr_rows - row,
    {
        proof {
            assert(row * cols + cols <= curr_rows * cols) by (nonlinear_arith)
                requires row < curr_rows;
            assert(curr_rows * cols <= curr@.len()) by (nonlinear_arith)
                requires curr_rows == curr@.len() as int / cols as int, cols > 0;
        }
        let start = row * cols;
        let d = rows_differ(prev, curr, start, cols);
        dirty.push(d);
        row = row + 1;
    }
    assert(dirty@ =~= grid_diff(prev@, curr@, cols as int));
    dirty
}

// ── Damage tracker ───────────────────────────────────────────────────

/// The indices `i < n` with `flags[i]` set, in increasing order.
pub open spec fn set_indices(flags: Seq<bool>, n: int) -> Seq<usize>
    decreases n,
{
    if n <= 0 {
        Seq::empty()
    } else if flags[n - 1] {
        set_indices(flags, n - 1).push((n - 1) as usize)
    } else {
        set_indices(flags, n - 1)
    }
}

/// The dirty flags after marking `row`: set when in range, else unchanged.
pub open spec fn mark_step(flags: Seq<bool>, row: usize) -> Seq<bool> {
    if row < flags.len() {
        flags.update(row as int, true)
    } else {
        flags
    }
}

/// The dirty flags after marking each row of `rows` in turn.
pub open spec fn marks_applied(flags: Seq<bool>, rows: Seq<usize>) -> Seq<bool>
    decreases rows.len(),
{
    if rows.len() == 0 {
        flags
    } else {
        mark_step(marks_applied(flags, rows.drop_last()), rows.last())
    }
}

/// The flags of a clean tracker of `n` rows.
pub open spec fn clean_flags(n: usize) -> Seq<bool> {
    Seq::new(n as nat, |i: int| false)
}

/// `set_indices` lists, in strictly increasing order and without repeats,
/// exactly the indices below `n` whose flag is set.
pub proof fn lemma_set_indices(flags: Seq<bool>, n: int)
    requires
        0 <= n <= flags.len(),
        n <= usize::MAX + 1,
    ensures
        forall|a: int, b: int| 0 <= a < b < set_indices(flags, n).len() ==> set_indices(flags, n)[a] < set_indices(flags, n)[b],
        forall|k: int| 0 <= k < set_indices(flags, n).len() ==> set_indices(flags, n)[k] < n,
        forall|r: usize| #[trigger] set_indices(flags, n).contains(r) <==> (r < n && flags[r as int]),
    decreases n,
{
    if n > 0 {
        lemma_set_indices(flags, n - 1);
        let prev = set_indices(flags, n - 1);
        let cur = set_indices(flags, n);
        assert forall|r: usize| #[trigger] cur.contains(r) <==> (r < n && flags[r as int]) by {
            if flags[n - 1] {
                assert(cur == prev.push((n - 1) as usize));
                if cur.contains(r) {
                    let k = choose|k: int| 0 <= k < cur.len() && cur[k] == r;
                    if k < prev.len() {
                        assert(prev[k] == r);
                        assert(prev.contains(r));
                    }
                }
                if r < n && flags[r as int] {
                    if r == n - 1 {
                        assert(cur[prev.len() as int] == r);
                    } else {
                        assert(prev.contains(r));
                        let k = choose|k: int| 0 <= k < prev.len() && prev[k] == r;
                        assert(cur[k] == r);
                    }
                }
            } else {
                if r < n && flags[r as int] {
                    assert(r != n - 1);
                }
            }
        }
    }
}

/// Marking rows of a clean tracker of `n` rows leaves dirty exactly the
/// marked rows below `n`: its dirty rows are those rows in increasing order
/// without repeats, and it has damage exactly when one of them is below `n`.
pub proof fn lemma_marks_from_clean(n: usize, rows: Seq<usize>)
    ensures
        marks_applied(clean_flags(n), rows) == Seq::new(n as nat, |i: int| rows.contains(i as usize)),
        forall|r: usize| #[trigger] set_indices(marks_applied(clean_flags(n), rows), n as int).contains(r)
            <==> (r < n && rows.contains(r)),
        forall|a: int, b: int| 0 <= a < b < set_indices(marks_applied(clean_flags(n), rows), n as int).len()
            ==> set_indices(marks_applied(clean_flags(n), rows), n as int)[a]
                < set_indices(marks_applied(clean_flags(n), rows), n as int)[b],
        (exists|i: int| 0 <= i < n && marks_applied(clean_flags(n), rows)[i])
            <==> (exists|k: int| 0 <= k < rows.len() && rows[k] < n),
    decreases rows.len(),
{
    let clean = clean_flags(n);
    let target = Seq::new(n as nat, |i: int| rows.contains(i as usize));
    if rows.len() == 0 {
        assert(clean =~= target);
    } else {
        let p = rows.drop_last();
        lemma_marks_from_clean(n, p);
        let prev = marks_applied(clean, p);
        assert forall|i: int| 0 <= i < n implies #[trigger] target[i] == mark_step(prev, rows.last())[i] by {
            let x = i as usize;
            if rows.contains(x) {
                let k = choose|k: int| 0 <= k < rows.len() && rows[k] == x;
                if k < p.len() {
                    assert(p[k] == x);
                }
            }
            if p.contains(x) {
                let k = choose|k: int| 0 <= k < p.len() && p[k] == x;
                assert(rows[k] == x);
            }
            if rows.last() == x {
                assert(rows[rows.len() - 1] == x);
            }
        }
        assert(marks_applied(clean, rows) =~= target);
    }
    let m = marks_applied(clean, rows);
    lemma_set_indices(m, n as int);
    assert((exists|i: int| 0 <= i < n && m[i]) <==> (exists|k: int| 0 <= k < rows.len() && rows[k] < n)) by {
        if exists|i: int| 0 <= i < n && m[i] {
            let i = choose|i: int| 0 <= i < n && m[i];
            assert(rows.contains(i as usize));
            let k = choose|k: int| 0 <= k < rows.len() && rows[k] == i as usize;
        }
        if exists|k: int| 0 <= k < rows.len() && rows[k] < n {
            let k = choose|k: int| 0 <= k < rows.len() && rows[k] < n;
            assert(rows.contains(rows[k]));
            assert(m[rows[k] as int]);
        }
    }
}

/// Tracks per-row dirty state for the terminal grid.
///
/// Enables selective GPU buffer updates by identifying which rows changed
/// since the last frame, instead of rebuilding the entire instance buffer.
pub struct DamageTracker {
    dirty: Vec<bool>,
}

impl View for DamageTracker {
    type V = Seq<bool>;

    closed spec fn view(&self) -> Seq<bool> {
        self.dirty@
    }
}

impl DamageTracker {
    /// Create a new DamageTracker for the given number of rows.
    /// All rows start clean.
    pub fn new(rows: usize) -> (t: Self)
        ensures
            t@ == Seq::new(rows as nat, |i: int| false),
    {
        DamageTracker { dirty: all_false(rows) }
    }

    /// Mark a specific row as dirty. Out-of-bounds indices are ignored.
    pub fn mark_row_dirty(&mut self, row: usize)
        ensures
            final(self)@ == mark_step(old(self)@, row),
    {
        if row < self.dirty.len() {
            self.dirty.set(row, true);
        }
    }

    /// Mark all rows as dirty (full damage).
    pub fn mark_all_dirty(&mut self)
        ensures
            final(self)@ == Seq::new(old(self)@.len(), |i: int| true),
    {
        let n = self.dirty.len();
        self.dirty = all_true(n);
    }

    /// The indices of dirty rows, in increasing order.
    pub fn dirty_rows(&self) -> (rows: Vec<usize>)
        ensures
            rows@ == set_indices(self@, self@.len() as int),
    {
        let mut rows: Vec<usize> = Vec::new();
        let mut i: usize = 0;
        while i < self.dirty.len()
            invariant
                i <= self.dirty@.len(),
                rows@ == set_indices(self.dirty@, i as int),
            decreases self.dirty.len() - i,
        {
            if self.dirty[i] {
                rows.push(i);
            }
            i = i + 1;
        }
        rows
    }

    /// Reset all rows to clean.
    pub fn clear(&mut self)
        ensures
            final(self)@ == Seq::new(old(self)@.len(), |i: int| false),
    {
        let n = self.dirty.len();
        self.dirty = all_false(n);
    }

    /// Resize the tracker to a new row count. All rows become clean after resize.
    pub fn resize(&mut self, rows: usize)
        ensures
            final(self)@ == Seq::new(rows as nat, |i: int| false),
    {
        self.dirty = all_false(rows);
    }

    /// Returns the number of rows being tracked.
    pub fn row_count(&self) -> (n: usize)
        ensures
            n == self@.len(),
    {
        self.dirty.len()
    }

    /// Returns true if any row is dirty.
    pub fn has_damage(&self) -> (b: bool)
        ensures
            b == exists|i: int| 0 <= i < self@.len() && self@[i],
    {
        let mut i: usize = 0;
        while i < self.dirty.len()
            invariant
                i <= self.dirty@.len(),
                forall|j: int| 0 <= j < i ==> !self.dirty@[j],
            decreases self.dirty.len() - i,
        {
            if self.dirty[i] {
                assert(self@[i as int]);
                return true;
            }
            i = i + 1;
        }
        false
    }
}

// ── Damage state ─────────────────────────────────────────────────────

/// Manages damage detection by caching the previous frame's grid cells
/// and diffing against the current frame.
pub struct DamageState {
    prev_cells: Option<Vec<GridCell>>,
    pub(crate) cols: usize,
    force_full: bool,
}

/// A damage state as plain values: the cached previous frame, the column
/// count, and whether the next frame is forced fully dirty.
pub ghost struct DamageModel {
    pub prev: Option<Seq<GridCell>>,
    pub cols: usize,
    pub force_full: bool,
}

impl View for DamageState {
    type V = DamageModel;

    closed spec fn view(&self) -> DamageModel {
        DamageModel {
            prev: match self.prev_cells {
                Some(v) => Some(v@),
                None => None,
            },
            cols: self.cols,
            force_full: self.force_full,
        }
    }
}

/// The dirty flags a frame gets: all rows dirty when nothing is cached or a
/// full repaint is forced, otherwise the diff against the cached frame.
pub open spec fn frame_damage(state: DamageModel, cells: Seq<GridCell>) -> Seq<bool> {
    let rows = if state.cols > 0 { cells.len() as int / state.cols as int } else { 0 };
    match state.prev {
        Some(prev) => if state.force_full {
            Seq::new(rows as nat, |i: int| true)
        } else {
            grid_diff(prev, cells, state.cols as int)
        },
        None => Seq::new(rows as nat, |i: int| true),
    }
}

fn copy_cells(cells: &[GridCell]) -> (v: Vec<GridCell>)
    ensures
        v@ == cells@,
{
    let mut v: Vec<GridCell> = Vec::new();
    let mut i: usize = 0;
    while i < cells.len()
        invariant
            i <= cells@.len(),
            v@ == cells@.subrange(0, i as int),
        decreases cells.len() - i,
    {
        v.push(cells[i]);
        i = i + 1;
        assert(v@ =~= cells@.subrange(0, i as int));
    }
    assert(cells@.subrange(0, cells@.len() as int) =~= cells@);
    v
}

impl DamageState {
    /// Create a new DamageState with the given column count.
    pub fn new(cols: usize) -> (s: Self)
        ensures
            s@ == (DamageModel { prev: None, cols, force_full: false }),
    {
        DamageState { prev_cells: None, cols, force_full: false }
    }

    /// Process a new frame's cells and return per-row dirty flags.
    ///
    /// On the first frame (no cache) or after `force_full_damage()`, returns all-dirty.
    /// Otherwise, diffs against the previous frame row-by-row.
    /// Updates the cache with the current cells after diffing; a forced
    /// repaint is consumed.
    pub fn process_frame(&mut self, cells: &[GridCell]) -> (dirty: Vec<bool>)
        ensures
            dirty@ == frame_damage(old(self)@, cells@),
            final(self)@ == (DamageModel {
                prev: Some(cells@),
                cols: old(self)@.cols,
                force_full: false,
            }),
    {
        let rows = if self.cols > 0 { cells.len() / self.cols } else { 0 };
        let dirty = match &self.prev_cells {
            Some(prev) => {
                if !self.force_full {
                    diff_grid_rows(prev.as_slice(), cells, self.cols)
                } else {
                    self.force_full = false;
                    all_true(rows)
                }
            },
            None => {
                self.force_full = false;
                all_true(rows)
            },
        };
        self.prev_cells = Some(copy_cells(cells));
        dirty
    }

    /// Force the next frame to be fully dirty (e.g., on resize, theme change).
    pub fn force_full_damage(&mut self)
        ensures
            final(self)@ == (DamageModel { force_full: true, ..old(self)@ }),
    {
        self.force_full = true;
    }

    /// Resize the state for a new column count. Clears the cache.
    pub fn resize(&mut self, cols: usize)
        ensures
            final(self)@ == (DamageModel { prev: None, cols, force_full: old(self)@.force_full }),
    {
        self.cols = cols;
        self.prev_cells = None;
    }
}

// ── Per-pane damage ──────────────────────────────────────────────────

struct PaneDamageEntry {
    id: u32,
    state: DamageState,
}

/// Manages per-pane damage states for multi-pane rendering.
///
/// Each pane gets its own independent DamageState, identified by PaneId.
/// Panes can be added/removed dynamically as splits/closes occur.
pub struct PaneDamageMap {
    states: Vec<PaneDamageEntry>,
}

/// Position of pane id `id` among the entries, if it is tracked.
pub open spec fn entry_index(entries: Seq<(u32, DamageModel)>, id: u32) -> Option<int> {
    if exists|i: int| 0 <= i < entries.len() && entries[i].0 == id {
        Some(choose|i: int| 0 <= i < entries.len() && entries[i].0 == id)
    } else {
        None
    }
}

/// No pane id occurs twice among the entries.
pub open spec fn distinct_ids(entries: Seq<(u32, DamageModel)>) -> bool {
    forall|a: int, b: int| 0 <= a < b < entries.len() ==> #[trigger] entries[a].0 != #[trigger] entries[b].0
}

/// `entry_index` finds the entry of a tracked id, and the only one when no
/// id occurs twice; it is `None` exactly when the id is not tracked.
pub proof fn lemma_entry_index(entries: Seq<(u32, DamageModel)>, id: u32)
    ensures
        entry_index(entries, id) matches Some(i) ==> 0 <= i < entries.len() && entries[i].0 == id,
        entry_index(entries, id) is None <==> forall|j: int| 0 <= j < entries.len() ==> #[trigger] entries[j].0 != id,
        distinct_ids(entries) ==> forall|j: int| 0 <= j < entries.len() && #[trigger] entries[j].0 == id
            ==> entry_index(entries, id) == Some(j),
{
    if exists|i: int| 0 <= i < entries.len() && entries[i].0 == id {
        let c = choose|i: int| 0 <= i < entries.len() && entries[i].0 == id;
        if distinct_ids(entries) {
            assert forall|j: int| 0 <= j < entries.len() && #[trigger] entries[j].0 == id implies entry_index(entries, id) == Some(j) by {
                if j < c {
                    assert(entries[j].0 != entries[c].0);
                } else if c < j {
                    assert(entries[c].0 != entries[j].0);
                }
            }
        }
    }
}

impl Default for PaneDamageMap {
    fn default() -> (m: Self)
        ensures
            m.wf(),
            m.entries() == Seq::<(u32, DamageModel)>::empty(),
    {
        Self::new()
    }
}

impl PaneDamageMap {
    /// The tracked panes in insertion order: pane id value and its state.
    pub closed spec fn entries(&self) -> Seq<(u32, DamageModel)> {
        self.states@.map_values(|e: PaneDamageEntry| (e.id, e.state@))
    }

    /// No pane id is tracked twice.
    pub closed spec fn wf(&self) -> bool {
        forall|i: int, j: int| 0 <= i < j < self.states@.len() ==> #[trigger] self.states@[i].id != #[trigger] self.states@[j].id
    }

    /// Create a new empty PaneDamageMap.
    pub fn new() -> (m: Self)
        ensures
            m.wf(),
            m.entries() == Seq::<(u32, DamageModel)>::empty(),
    {
        let m = PaneDamageMap { states: Vec::new() };
        assert(m.entries() =~= Seq::<(u32, DamageModel)>::empty());
        m
    }

    fn find(&self, id: u32) -> (r: Option<usize>)
        requires
            self.wf(),
        ensures
            match r {
                Some(i) => i < self.states@.len() && self.states@[i as int].id == id,
                None => forall|j: int| 0 <= j < self.states@.len() ==> self.states@[j].id != id,
            },
    {
        let mut i: usize = 0;
        while i < self.states.len()
            invariant
                i <= self.states@.len(),
                forall|j: int| 0 <= j < i ==> self.states@[j].id != id,
            decreases self.states.len() - i,
        {
            if self.states[i].id == id {
                return Some(i);
            }
            i = i + 1;
        }
        None
    }

    /// Get or create the DamageState for a pane. New panes start with no
    /// cache (so their first frame is fully dirty).
    pub fn get_or_create(&mut self, pane_id: PaneId, cols: usize) -> (state: &mut DamageState)
        requires
            old(self).wf(),
        ensures
            final(self).wf(),
            match entry_index(old(self).entries(), pane_id.0) {
                Some(i) => {
                    &&& state@ == old(self).entries()[i].1
                    &&& final(self).entries() == old(self).entries().update(i, (pane_id.0, final(state)@))
                    &&& final(self).entries().len() == old(self).entries().len()
                },
                None => {
                    &&& state@ == (DamageModel { prev: None, cols, force_full: false })
                    &&& final(self).entries() == old(self).entries().push((pane_id.0, final(state)@))
                    &&& final(self).entries().len() == old(self).entries().len() + 1
                },
            },
    {
        let id = pane_id.0;
        let idx = match self.find(id) {
            Some(i) => {
                proof {
                    self.lemma_found_at(id, i as int);
                }
                i
            },
            None => {
                proof {
                    self.lemma_not_found(id);
                }
                let ghost before = self.states@;
                self.states.push(PaneDamageEntry { id, state: DamageState::new(cols) });
                proof {
                    assert forall|a: int, b: int| 0 <= a < b < self.states@.len() implies #[trigger] self.states@[a].id != #[trigger] self.states@[b].id by {
                        if b == before.len() {
                            assert(self.states@[a] == before[a]);
                        } else {
                            assert(self.states@[a] == before[a]);
                            assert(self.states@[b] == before[b]);
                        }
                    }
                }
                self.states.len() - 1
            },
        };
        proof {
            assert(self.wf());
            assert(self.states@[idx as int].id == id);
        }
        &mut self.states[idx].state
    }

    /// The entries hold no pane id twice.
    pub proof fn lemma_ids_distinct(&self)
        requires
            self.wf(),
        ensures
            distinct_ids(self.entries()),
    {
        assert forall|a: int, b: int| 0 <= a < b < self.entries().len() implies #[trigger] self.entries()[a].0
            != #[trigger] self.entries()[b].0 by {
            assert(self.entries()[a].0 == self.states@[a].id);
            assert(self.entries()[b].0 == self.states@[b].id);
        }
    }

    proof fn lemma_found_at(&self, id: u32, i: int)
        requires
            self.wf(),
            0 <= i < self.states@.len(),
            self.states@[i].id == id,
        ensures
            entry_index(self.entries(), id) == Some(i),
    {
        self.lemma_ids_distinct();
        assert(self.entries()[i].0 == id);
        lemma_entry_index(self.entries(), id);
    }

    proof fn lemma_not_found(&self, id: u32)
        requires
            forall|j: int| 0 <= j < self.states@.len() ==> self.states@[j].id != id,
        ensures
            entry_index(self.entries(), id) == None::<int>,
    {
        assert forall|j: int| 0 <= j < self.entries().len() implies #[trigger] self.entries()[j].0 != id by {
            assert(self.entries()[j].0 == self.states@[j].id);
        }
    }

    /// Remove the DamageState for a closed pane.
    pub fn remove(&mut self, pane_id: PaneId)
        requires
            old(self).wf(),
        ensures
            final(self).wf(),
            match entry_index(old(self).entries(), pane_id.0) {
                Some(i) => final(self).entries() == old(self).entries().remove(i),
                None => final(self).entries() == old(self).entries(),
            },
    {
        match self.find(pane_id.0) {
            Some(i) => {
                let ghost before = self.states@;
                proof {
                    self.lemma_found_at(pane_id.0, i as int);
                }
                self.states.remove(i);
                proof {
                    assert(self.states@ =~= before.remove(i as int));
                    assert(self.entries() =~= old(self).entries().remove(i as int));
                    assert forall|a: int, b: int| 0 <= a < b < self.states@.len() implies #[trigger] self.states@[a].id != #[trigger] self.states@[b].id by {
                        let a0 = if a < i { a } else { a + 1 };
                        let b0 = if b < i { b } else { b + 1 };
                        assert(self.states@[a] == before[a0]);
                        assert(self.states@[b] == before[b0]);
                    }
                }
            },
            None => {
                proof {
                    self.lemma_not_found(pane_id.0);
                }
            },
        }
    }

    /// Force full damage on all panes (e.g., after window resize).
    pub fn force_full_damage_all(&mut self)
        requires
            old(self).wf(),
        ensures
            final(self).wf(),
            final(self).entries().len() == old(self).entries().len(),
            forall|i: int| 0 <= i < old(self).entries().len() ==> #[trigger] final(self).entries()[i] == (
                old(self).entries()[i].0,
                DamageModel { force_full: true, ..old(self).entries()[i].1 },
            ),
    {
        let mut i: usize = 0;
        while i < self.states.len()
            invariant
                self.wf(),
                i <= self.states@.len(),
                self.states@.len() == old(self).states@.len(),
                forall|j: int| 0 <= j < i ==> #[trigger] self.entries()[j] == (
                    old(self).entries()[j].0,
                    DamageModel { force_full: true, ..old(self).entries()[j].1 },
                ),
                forall|j: int| i <= j < self.states@.len() ==> #[trigger] self.entries()[j] == old(self).entries()[j],
            decreases self.states.len() - i,
        {
            let ghost before = self.states@;
            let ghost ents_before = self.entries();
            assert(ents_before[i as int] == old(self).entries()[i as int]);
            assert(ents_before[i as int] == (before[i as int].id, before[i as int].state@));
            self.states[i].state.force_full_damage();
            proof {
                assert forall|j: int| i < j < self.states@.len() implies #[trigger] self.entries()[j] == old(self).entries()[j] by {
                    assert(ents_before[j] == old(self).entries()[j]);
                    assert(self.states@[j] == before[j]);
                }
                assert forall|j: int| 0 <= j < i implies #[trigger] self.entries()[j] == ents_before[j] by {
                    assert(self.states@[j] == before[j]);
                }
                assert(self.states@.len() == before.len());
                assert(self.states@[i as int].id == before[i as int].id);
                assert forall|j: int| 0 <= j < self.states@.len() && j != i implies self.states@[j] == before[j] by {}
                assert(self.states@[i as int].state@ == DamageModel { force_full: true, ..before[i as int].state@ });
                assert(self.entries()[i as int] == (old(self).entries()[i as int].0, DamageModel { force_full: true, ..old(self).entries()[i as int].1 }));
            }
            i = i + 1;
        }
    }

    /// Number of tracked panes.
    pub fn pane_count(&self) -> (n: usize)
        ensures
            n == self.entries().len(),
    {
        self.states.len()
    }
}

// ── Frame metrics ────────────────────────────────────────────────────

/// Sum of a sequence of nanosecond counts.
pub open spec fn nanos_sum(s: Seq<nat>) -> nat
    decreases s.len(),
{
    if s.len() == 0 {
        0
    } else {
        nanos_sum(s.drop_last()) + s.last()
    }
}

/// The average of a sequence of nanosecond counts, rounded down (0 when empty).
pub open spec fn nanos_average(s: Seq<nat>) -> nat {
    if s.len() == 0 {
        0
    } else {
        nanos_sum(s) / s.len()
    }
}

/// The lengths in nanoseconds of a sequence of durations.
pub open spec fn durations_nanos(s: Seq<Duration>) -> Seq<nat> {
    s.map_values(|d: Duration| duration_nanos(d))
}

/// Whether `count` frames complete a summary period of `interval` frames
/// (`usize::is_multiple_of`: with an interval of 0, only a count of 0 does).
pub open spec fn completes_period(count: int, interval: int) -> bool {
    if interval == 0 {
        count == 0
    } else {
        count % interval == 0
    }
}

/// The times kept after recording one more frame, the `count`-th: cleared
/// when that frame completes a summary period, else the new time appended.
pub open spec fn window_push(kept: Seq<nat>, count: int, interval: int, t: nat) -> Seq<nat> {
    if completes_period(count, interval) {
        Seq::empty()
    } else {
        kept.push(t)
    }
}

/// The times kept after recording the frames `ts` in order, starting from
/// nothing.
pub open spec fn window_after(interval: int, ts: Seq<nat>) -> Seq<nat>
    decreases ts.len(),
{
    if ts.len() == 0 {
        Seq::empty()
    } else {
        window_push(window_after(interval, ts.drop_last()), ts.len() as int, interval, ts.last())
    }
}

/// After `N` frames recorded by a metrics value made with interval `k`, the
/// kept times are the last `N % k` recorded (all of them when `k` is 0),
/// and a summary was produced at every multiple of `k`.
pub proof fn lemma_window_after(interval: int, ts: Seq<nat>)
    requires
        interval >= 0,
    ensures
        interval > 0 ==> window_after(interval, ts) == ts.subrange(ts.len() as int - (ts.len() as int) % interval, ts.len() as int),
        interval == 0 && ts.len() > 0 ==> window_after(interval, ts) == ts,
        interval == 0 && ts.len() == 0 ==> window_after(interval, ts) == Seq::<nat>::empty(),
    decreases ts.len(),
{
    if ts.len() == 0 {
        if interval > 0 {
            assert(0int % interval == 0) by (nonlinear_arith)
                requires interval > 0;
            assert(ts.subrange(0, 0) =~= Seq::<nat>::empty());
        }
    } else {
        let p = ts.drop_last();
        lemma_window_after(interval, p);
        let n = ts.len() as int;
        if interval > 0 {
            let r = n % interval;
            let rp = (n - 1) % interval;
            assert(0 <= r < interval && r <= n && 0 <= rp < interval && rp <= n - 1) by (nonlinear_arith)
                requires interval > 0, n >= 1, r == n % interval, rp == (n - 1) % interval;
            if r == 0 {
                assert(ts.subrange(n - r, n) =~= Seq::<nat>::empty());
                assert(window_after(interval, ts) == Seq::<nat>::empty());
            } else {
                assert(rp == r - 1) by (nonlinear_arith)
                    requires interval > 0, n >= 1, r == n % interval, rp == (n - 1) % interval, r != 0;
                assert(window_after(interval, p) == p.subrange((n - 1) - rp, n - 1));
                assert(p.subrange((n - 1) - rp, n - 1).push(ts.last()) =~= ts.subrange(n - r, n));
                assert(window_after(interval, ts) == window_after(interval, p).push(ts.last()));
            }
        } else {
            if p.len() == 0 {
                assert(ts =~= seq![ts.last()]);
                assert(Seq::<nat>::empty().push(ts.last()) =~= ts);
            } else {
                assert(p.push(ts.last()) =~= ts);
            }
        }
    }
}

/// One more recorded frame extends the kept window by one step: what
/// `record` does to a value that holds `window_after` of its history holds
/// `window_after` of the longer history.
pub proof fn lemma_window_step(interval: int, ts: Seq<nat>, t: nat)
    ensures
        window_after(interval, ts.push(t)) == window_push(window_after(interval, ts), ts.len() as int + 1, interval, t),
{
    assert(ts.push(t).drop_last() =~= ts);
}

/// Tracks per-frame timing metrics for the render loop.
///
/// Records diff time (damage detection), update time (GPU buffer writes),
/// and total frame time. Computes averages over the frames since the last
/// summary; every `summary_interval` frames the accumulated times are reset.
pub struct FrameMetrics {
    diff_times: Vec<Duration>,
    update_times: Vec<Duration>,
    total_times: Vec<Duration>,
    summary_interval: usize,
    frame_count: usize,
}

impl FrameMetrics {
    /// Diff times (ns) since the last summary.
    pub closed spec fn diffs(&self) -> Seq<nat> {
        durations_nanos(self.diff_times@)
    }

    /// Update times (ns) since the last summary.
    pub closed spec fn updates(&self) -> Seq<nat> {
        durations_nanos(self.update_times@)
    }

    /// Total frame times (ns) since the last summary.
    pub closed spec fn totals(&self) -> Seq<nat> {
        durations_nanos(self.total_times@)
    }

    /// Frames between summaries.
    pub closed spec fn interval(&self) -> usize {
        self.summary_interval
    }

    /// Frames recorded since creation.
    pub closed spec fn frames(&self) -> usize {
        self.frame_count
    }

    /// The three accumulated sequences have one entry per frame since the
    /// last summary.
    pub closed spec fn wf(&self) -> bool {
        self.diff_times@.len() == self.update_times@.len() && self.update_times@.len()
            == self.total_times@.len()
    }

    /// Create a new FrameMetrics that summarizes every `summary_interval` frames.
    pub fn new(summary_interval: usize) -> (m: Self)
        ensures
            m.wf(),
            m.diffs() == Seq::<nat>::empty(),
            m.updates() == Seq::<nat>::empty(),
            m.totals() == Seq::<nat>::empty(),
            m.interval() == summary_interval,
            m.frames() == 0,
    {
        let m = FrameMetrics {
            diff_times: Vec::new(),
            update_times: Vec::new(),
            total_times: Vec::new(),
            summary_interval,
            frame_count: 0,
        };
        assert(m.diffs() =~= Seq::<nat>::empty());
        assert(m.updates() =~= Seq::<nat>::empty());
        assert(m.totals() =~= Seq::<nat>::empty());
        m
    }

    /// Record timing for one frame. When the frame count completes a summary
    /// period, the summary of the period is returned (the number of frames
    /// in it and the average diff, update and total times, rounded down to
    /// the nanosecond) and the accumulated times are cleared; otherwise
    /// `None` is returned. Computing the averages of a period needs its frame
    /// count to fit in `u32` and each sum of times to fit in a `Duration`.
    pub fn record(&mut self, diff_time: Duration, update_time: Duration, total_time: Duration) -> (summary: Option<(usize, Duration, Duration, Duration)>)
        requires
            old(self).wf(),
            old(self).frames() < usize::MAX,
            completes_period(old(self).frames() + 1, old(self).interval() as int) ==> {
                &&& old(self).diffs().len() + 1 <= u32::MAX
                &&& nanos_sum(old(self).diffs().push(duration_nanos(diff_time))) <= max_duration_nanos()
                &&& nanos_sum(old(self).updates().push(duration_nanos(update_time))) <= max_duration_nanos()
                &&& nanos_sum(old(self).totals().push(duration_nanos(total_time))) <= max_duration_nanos()
            },
        ensures
            final(self).wf(),
            final(self).frames() == old(self).frames() + 1,
            final(self).interval() == old(self).interval(),
            final(self).diffs() == window_push(old(self).diffs(), old(self).frames() + 1, old(self).interval() as int, duration_nanos(diff_time)),
            final(self).updates() == window_push(old(self).updates(), old(self).frames() + 1, old(self).interval() as int, duration_nanos(update_time)),
            final(self).totals() == window_push(old(self).totals(), old(self).frames() + 1, old(self).interval() as int, duration_nanos(total_time)),
            summary is Some <==> completes_period(old(self).frames() + 1, old(self).interval() as int),
            summary matches Some(t) ==> {
                &&& t.0 == old(self).diffs().len() + 1
                &&& duration_nanos(t.1) == nanos_average(old(self).diffs().push(duration_nanos(diff_time)))
                &&& duration_nanos(t.2) == nanos_average(old(self).updates().push(duration_nanos(update_time)))
                &&& duration_nanos(t.3) == nanos_average(old(self).totals().push(duration_nanos(total_time)))
            },
    {
        let ghost d0 = self.diffs();
        let ghost u0 = self.updates();
        let ghost t0 = self.totals();
        self.diff_times.push(diff_time);
        self.update_times.push(update_time);
        self.total_times.push(total_time);
        assert(self.diffs() =~= d0.push(duration_nanos(diff_time)));
        assert(self.updates() =~= u0.push(duration_nanos(update_time)));
        assert(self.totals() =~= t0.push(duration_nanos(total_time)));
        self.frame_count = self.frame_count + 1;
        let period_done = if self.summary_interval == 0 {
            self.frame_count == 0
        } else {
            self.frame_count % self.summary_interval == 0
        };
        let summary = if period_done {
            let n = self.diff_times.len();
            let (a, b, c) = self.averages();
            self.diff_times.clear();
            self.update_times.clear();
            self.total_times.clear();
            Some((n, a, b, c))
        } else {
            None
        };
        assert(self.diffs() =~= if period_done { Seq::<nat>::empty() } else { d0.push(duration_nanos(diff_time)) });
        assert(self.updates() =~= if period_done { Seq::<nat>::empty() } else { u0.push(duration_nanos(update_time)) });
        assert(self.totals() =~= if period_done { Seq::<nat>::empty() } else { t0.push(duration_nanos(total_time)) });
        summary
    }

    /// Returns the number of frames recorded since the last summary (or since creation).
    pub fn frame_count(&self) -> (n: usize)
        ensures
            n == self.diffs().len(),
    {
        self.diff_times.len()
    }

    /// Compute average durations over accumulated frames.
    /// Returns (avg_diff, avg_update, avg_total), each rounded down to the
    /// nanosecond. Returns zero durations if no frames recorded.
    pub fn averages(&self) -> (r: (Duration, Duration, Duration))
        requires
            self.wf(),
            self.diffs().len() <= u32::MAX,
            nanos_sum(self.diffs()) <= max_duration_nanos(),
            nanos_sum(self.updates()) <= max_duration_nanos(),
            nanos_sum(self.totals()) <= max_duration_nanos(),
        ensures
            duration_nanos(r.0) == nanos_average(self.diffs()),
            duration_nanos(r.1) == nanos_average(self.updates()),
            duration_nanos(r.2) == nanos_average(self.totals()),
    {
        let a = average_of(&self.diff_times);
        let b = average_of(&self.update_times);
        let c = average_of(&self.total_times);
        (a, b, c)
    }
}

proof fn lemma_nanos_sum_mono(s: Seq<nat>, i: int)
    requires
        0 <= i <= s.len(),
    ensures
        nanos_sum(s.subrange(0, i)) <= nanos_sum(s),
    decreases s.len() - i,
{
    if i < s.len() {
        lemma_nanos_sum_mono(s, i + 1);
        assert(s.subrange(0, i + 1).drop_last() =~= s.subrange(0, i));
    } else {
        assert(s.subrange(0, i) =~= s);
    }
}

fn average_of(times: &Vec<Duration>) -> (avg: Duration)
    requires
        times@.len() <= u32::MAX,
        nanos_sum(durations_nanos(times@)) <= max_duration_nanos(),
    ensures
        duration_nanos(avg) == nanos_average(durations_nanos(times@)),
{
    let n = times.len();
    if n == 0 {
        return duration_from_nanos(0);
    }
    let ghost ns = durations_nanos(times@);
    let mut sum: u128 = 0;
    let mut i: usize = 0;
    while i < n
        invariant
            n == times@.len(),
            ns == durations_nanos(times@),
            nanos_sum(ns) <= max_duration_nanos(),
            i <= n,
            sum == nanos_sum(ns.subrange(0, i as int)),
        decreases n - i,
    {
        let d = nanos_of(times[i]);
        proof {
            assert(ns.subrange(0, i + 1).drop_last() =~= ns.subrange(0, i as int));
            lemma_nanos_sum_mono(ns, i + 1);
        }
        sum = sum + d;
        i = i + 1;
    }
    assert(ns.subrange(0, n as int) =~= ns);
    let divisor: u128 = (n as u32) as u128;
    let avg = sum / divisor;
    assert(avg <= sum) by (nonlinear_arith)
        requires avg == sum / divisor, divisor >= 1;
    duration_from_nanos(avg)
}


// ── Laws ─────────────────────────────────────────────────────────────

/// Two identical grids have no dirty row.
pub proof fn lemma_identical_grids_clean(cells: Seq<GridCell>, cols: int)
    ensures
        forall|i: int| 0 <= i < grid_diff(cells, cells, cols).len() ==> !#[trigger] grid_diff(cells, cells, cols)[i],
{
}

/// A frame that repeats the cached one, with no repaint forced, comes out
/// with every row clean; one that follows a forced repaint comes out with
/// every row dirty, whatever it holds.
pub proof fn lemma_repeat_frame_clean_forced_frame_dirty(state: DamageModel, cells: Seq<GridCell>)
    ensures
        state.prev == Some(cells) && !state.force_full ==> forall|i: int|
            0 <= i < frame_damage(state, cells).len() ==> !#[trigger] frame_damage(state, cells)[i],
        state.force_full ==> forall|i: int|
            0 <= i < frame_damage(state, cells).len() ==> #[trigger] frame_damage(state, cells)[i],
        state.cols > 0 ==> (state.force_full || state.prev is None ==> frame_damage(state, cells).len() == (cells.len() as int) / (state.cols as int)),
{
}

/// Each pane has its own damage state: replacing the entry of one tracked
/// pane (as `get_or_create` does) leaves every other pane's entry as it was.
pub proof fn lemma_pane_states_independent(entries: Seq<(u32, DamageModel)>, i: int, id: u32, state: DamageModel, j: int)
    requires
        0 <= i < entries.len(),
        0 <= j < entries.len(),
        i != j,
    ensures
        entries.update(i, (id, state))[j] == entries[j],
        entries.update(i, (id, state)).len() == entries.len(),
{
}

} // verus!
