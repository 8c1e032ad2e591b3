use std::time::Duration;
use veloterm::pane::PaneId;
use veloterm::renderer::damage::{diff_grid_rows, DamageState, DamageTracker, FrameMetrics, PaneDamageMap};
use veloterm::renderer::grid_renderer::{Color, GridCell, CELL_FLAG_UNDERLINE};
#[test]
fn new_tracker_has_correct_row_count() {
    let tracker = DamageTracker::new(50);
    assert_eq!(tracker.row_count(), 50);
}

#[test]
fn new_tracker_has_no_dirty_rows() {
    let tracker = DamageTracker::new(50);
    assert_eq!(tracker.dirty_rows().len(), 0);
    assert!(!tracker.has_damage());
}

#[test]
fn mark_row_dirty_flags_single_row() {
    let mut tracker = DamageTracker::new(50);
    tracker.mark_row_dirty(10);
    let dirty: Vec<usize> = tracker.dirty_rows();
    assert_eq!(dirty, vec![10]);
    assert!(tracker.has_damage());
}

#[test]
fn mark_multiple_rows_dirty() {
    let mut tracker = DamageTracker::new(50);
    tracker.mark_row_dirty(5);
    tracker.mark_row_dirty(20);
    tracker.mark_row_dirty(49);
    let dirty: Vec<usize> = tracker.dirty_rows();
    assert_eq!(dirty, vec![5, 20, 49]);
}

#[test]
fn mark_all_dirty_flags_every_row() {
    let mut tracker = DamageTracker::new(10);
    tracker.mark_all_dirty();
    let dirty: Vec<usize> = tracker.dirty_rows();
    assert_eq!(dirty, vec![0, 1, 2, 3, 4, 5, 6, 7, 8, 9]);
}

#[test]
fn clear_resets_all_flags() {
    let mut tracker = DamageTracker::new(50);
    tracker.mark_all_dirty();
    assert!(tracker.has_damage());
    tracker.clear();
    assert_eq!(tracker.dirty_rows().len(), 0);
    assert!(!tracker.has_damage());
}

#[test]
fn resize_adjusts_row_count_and_clears() {
    let mut tracker = DamageTracker::new(50);
    tracker.mark_row_dirty(10);
    tracker.resize(30);
    assert_eq!(tracker.row_count(), 30);
    assert_eq!(tracker.dirty_rows().len(), 0);
}

#[test]
fn out_of_bounds_row_is_ignored() {
    let mut tracker = DamageTracker::new(10);
    tracker.mark_row_dirty(10); // exactly out of bounds
    tracker.mark_row_dirty(100); // way out of bounds
    assert_eq!(tracker.dirty_rows().len(), 0);
    assert!(!tracker.has_damage());
}

#[test]
fn marking_same_row_twice_is_idempotent() {
    let mut tracker = DamageTracker::new(50);
    tracker.mark_row_dirty(5);
    tracker.mark_row_dirty(5);
    let dirty: Vec<usize> = tracker.dirty_rows();
    assert_eq!(dirty, vec![5]);
}

#[test]
fn zero_rows_tracker_works() {
    let tracker = DamageTracker::new(0);
    assert_eq!(tracker.row_count(), 0);
    assert_eq!(tracker.dirty_rows().len(), 0);
}

// ── GridCell PartialEq tests ────────────────────────────────────


fn white() -> Color {
    Color::new(1.0f32.to_bits(), 1.0f32.to_bits(), 1.0f32.to_bits(), 1.0f32.to_bits())
}

fn black() -> Color {
    Color::new(0.0f32.to_bits(), 0.0f32.to_bits(), 0.0f32.to_bits(), 1.0f32.to_bits())
}

fn red() -> Color {
    Color::new(1.0f32.to_bits(), 0.0f32.to_bits(), 0.0f32.to_bits(), 1.0f32.to_bits())
}

#[test]
fn gridcell_equal_when_all_fields_match() {
    let a = GridCell::new('A', white(), black());
    let b = GridCell::new('A', white(), black());
    assert_eq!(a, b);
}

#[test]
fn gridcell_not_equal_when_char_differs() {
    let a = GridCell::new('A', white(), black());
    let b = GridCell::new('B', white(), black());
    assert_ne!(a, b);
}

#[test]
fn gridcell_not_equal_when_fg_differs() {
    let a = GridCell::new('A', white(), black());
    let b = GridCell::new('A', red(), black());
    assert_ne!(a, b);
}

#[test]
fn gridcell_not_equal_when_bg_differs() {
    let a = GridCell::new('A', white(), black());
    let b = GridCell::new('A', white(), red());
    assert_ne!(a, b);
}

#[test]
fn gridcell_not_equal_when_flags_differ() {
    let mut a = GridCell::new('A', white(), black());
    let mut b = GridCell::new('A', white(), black());
    a.flags = 0;
    b.flags = CELL_FLAG_UNDERLINE;
    assert_ne!(a, b);
}

// ── Grid diff tests ─────────────────────────────────────────────

fn make_grid(cols: usize, rows: usize, ch: char) -> Vec<GridCell> {
    vec![GridCell::new(ch, white(), black()); cols * rows]
}

#[test]
fn diff_identical_grids_no_dirty_rows() {
    let grid = make_grid(4, 3, 'A');
    let result = diff_grid_rows(&grid, &grid, 4);
    assert_eq!(result, vec![false, false, false]);
}

#[test]
fn diff_single_cell_change_marks_only_that_row() {
    let prev = make_grid(4, 3, 'A');
    let mut curr = prev.clone();
    curr[5] = GridCell::new('B', white(), black()); // row 1, col 1
    let result = diff_grid_rows(&prev, &curr, 4);
    assert_eq!(result, vec![false, true, false]);
}

#[test]
fn diff_changes_in_multiple_rows() {
    let prev = make_grid(4, 3, 'A');
    let mut curr = prev.clone();
    curr[0] = GridCell::new('X', white(), black()); // row 0
    curr[9] = GridCell::new('Y', white(), black()); // row 2
    let result = diff_grid_rows(&prev, &curr, 4);
    assert_eq!(result, vec![true, false, true]);
}

#[test]
fn diff_empty_grids_no_dirty_rows() {
    let result = diff_grid_rows(&[], &[], 0);
    assert!(result.is_empty());
}

#[test]
fn diff_different_sizes_all_dirty() {
    let small = make_grid(4, 2, 'A');
    let large = make_grid(4, 3, 'A');
    let result = diff_grid_rows(&small, &large, 4);
    // When sizes differ, all rows of the larger grid should be dirty
    assert!(result.iter().all(|&d| d));
    assert_eq!(result.len(), 3);
}

// ── DamageState tests ───────────────────────────────────────────

#[test]
fn damage_state_first_frame_all_dirty() {
    let mut state = DamageState::new(4);
    let cells = make_grid(4, 3, 'A');
    let dirty = state.process_frame(&cells);
    assert_eq!(dirty.len(), 3);
    assert!(dirty.iter().all(|&d| d), "first frame should be all dirty");
}

#[test]
fn damage_state_second_frame_no_changes_no_dirty() {
    let mut state = DamageState::new(4);
    let cells = make_grid(4, 3, 'A');
    let _ = state.process_frame(&cells); // first frame
    let dirty = state.process_frame(&cells); // identical second frame
    assert_eq!(dirty, vec![false, false, false]);
}

#[test]
fn damage_state_second_frame_one_row_changed() {
    let mut state = DamageState::new(4);
    let cells = make_grid(4, 3, 'A');
    let _ = state.process_frame(&cells);
    let mut changed = cells.clone();
    changed[5] = GridCell::new('B', white(), black()); // row 1
    let dirty = state.process_frame(&changed);
    assert_eq!(dirty, vec![false, true, false]);
}

#[test]
fn damage_state_cache_updates_after_each_diff() {
    let mut state = DamageState::new(4);
    let cells_a = make_grid(4, 3, 'A');
    let _ = state.process_frame(&cells_a); // first frame
    let mut cells_b = cells_a.clone();
    cells_b[0] = GridCell::new('B', white(), black());
    let _ = state.process_frame(&cells_b); // second frame: row 0 dirty
                                           // Third frame same as cells_b → no dirty
    let dirty = state.process_frame(&cells_b);
    assert_eq!(dirty, vec![false, false, false]);
}

#[test]
fn damage_state_resize_clears_cache_returns_all_dirty() {
    let mut state = DamageState::new(4);
    let cells = make_grid(4, 3, 'A');
    let _ = state.process_frame(&cells);
    state.resize(5); // new column count
    let cells_new = make_grid(5, 2, 'A');
    let dirty = state.process_frame(&cells_new);
    assert_eq!(dirty.len(), 2);
    assert!(dirty.iter().all(|&d| d), "after resize should be all dirty");
}

#[test]
fn damage_state_force_full_damage() {
    let mut state = DamageState::new(4);
    let cells = make_grid(4, 3, 'A');
    let _ = state.process_frame(&cells);
    state.force_full_damage();
    let dirty = state.process_frame(&cells); // same cells but forced
    assert_eq!(dirty.len(), 3);
    assert!(
        dirty.iter().all(|&d| d),
        "forced full damage should be all dirty"
    );
}

// ── Full-damage event trigger tests ──────────────────────────────

#[test]
fn resize_triggers_full_damage_and_cache_clear() {
    let mut state = DamageState::new(4);
    let cells = make_grid(4, 3, 'A');
    let _ = state.process_frame(&cells);
    // Simulate resize event
    state.resize(6);
    state.force_full_damage();
    let new_cells = make_grid(6, 2, 'A');
    let dirty = state.process_frame(&new_cells);
    assert_eq!(dirty.len(), 2);
    assert!(
        dirty.iter().all(|&d| d),
        "resize should trigger full damage"
    );
}

#[test]
fn theme_change_triggers_full_damage() {
    let mut state = DamageState::new(4);
    let cells = make_grid(4, 3, 'A');
    let _ = state.process_frame(&cells);
    // Simulate theme change: same grid but force full repaint
    state.force_full_damage();
    let dirty = state.process_frame(&cells);
    assert!(
        dirty.iter().all(|&d| d),
        "theme change should trigger full damage"
    );
}

#[test]
fn font_size_change_triggers_full_damage() {
    let mut state = DamageState::new(4);
    let cells = make_grid(4, 3, 'A');
    let _ = state.process_frame(&cells);
    // Simulate font size change: resize + force full damage
    state.resize(5);
    state.force_full_damage();
    let new_cells = make_grid(5, 4, 'A');
    let dirty = state.process_frame(&new_cells);
    assert_eq!(dirty.len(), 4);
    assert!(
        dirty.iter().all(|&d| d),
        "font size change should trigger full damage"
    );
}

#[test]
fn scroll_triggers_full_damage() {
    let mut state = DamageState::new(4);
    let cells_a = make_grid(4, 3, 'A');
    let _ = state.process_frame(&cells_a);
    // Simulate scroll: content changes + force full damage
    state.force_full_damage();
    let cells_b = make_grid(4, 3, 'B');
    let dirty = state.process_frame(&cells_b);
    assert!(
        dirty.iter().all(|&d| d),
        "scroll should trigger full damage"
    );
}

#[test]
fn force_full_damage_resets_after_one_frame() {
    let mut state = DamageState::new(4);
    let cells = make_grid(4, 3, 'A');
    let _ = state.process_frame(&cells);
    state.force_full_damage();
    let _ = state.process_frame(&cells); // consumes the force flag
                                         // Next frame with same data should be clean
    let dirty = state.process_frame(&cells);
    assert!(
        dirty.iter().all(|&d| !d),
        "force flag should reset after one frame"
    );
}

// ── FrameMetrics tests ───────────────────────────────────────────


#[test]
fn frame_metrics_starts_at_zero_frames() {
    let metrics = FrameMetrics::new(60);
    assert_eq!(metrics.frame_count(), 0);
}

#[test]
fn frame_metrics_records_frame_count() {
    let mut metrics = FrameMetrics::new(60);
    metrics.record(
        Duration::from_micros(100),
        Duration::from_micros(200),
        Duration::from_micros(400),
    );
    metrics.record(
        Duration::from_micros(150),
        Duration::from_micros(250),
        Duration::from_micros(500),
    );
    assert_eq!(metrics.frame_count(), 2);
}

#[test]
fn frame_metrics_averages_single_frame() {
    let mut metrics = FrameMetrics::new(60);
    metrics.record(
        Duration::from_micros(100),
        Duration::from_micros(200),
        Duration::from_micros(400),
    );
    let (avg_diff, avg_update, avg_total) = metrics.averages();
    assert_eq!(avg_diff, Duration::from_micros(100));
    assert_eq!(avg_update, Duration::from_micros(200));
    assert_eq!(avg_total, Duration::from_micros(400));
}

#[test]
fn frame_metrics_averages_multiple_frames() {
    let mut metrics = FrameMetrics::new(60);
    metrics.record(
        Duration::from_micros(100),
        Duration::from_micros(200),
        Duration::from_micros(400),
    );
    metrics.record(
        Duration::from_micros(300),
        Duration::from_micros(400),
        Duration::from_micros(800),
    );
    let (avg_diff, avg_update, avg_total) = metrics.averages();
    assert_eq!(avg_diff, Duration::from_micros(200));
    assert_eq!(avg_update, Duration::from_micros(300));
    assert_eq!(avg_total, Duration::from_micros(600));
}

#[test]
fn frame_metrics_averages_zero_when_empty() {
    let metrics = FrameMetrics::new(60);
    let (avg_diff, avg_update, avg_total) = metrics.averages();
    assert_eq!(avg_diff, Duration::ZERO);
    assert_eq!(avg_update, Duration::ZERO);
    assert_eq!(avg_total, Duration::ZERO);
}

// ── PaneDamageMap tests ─────────────────────────────────────────


#[test]
fn pane_damage_each_pane_has_independent_state() {
    let mut map = PaneDamageMap::new();
    let id_a = PaneId(100);
    let id_b = PaneId(200);

    let cells_a = make_grid(4, 3, 'A');
    let cells_b = make_grid(4, 3, 'B');

    // First frame for both: all dirty
    let dirty_a = map.get_or_create(id_a, 4).process_frame(&cells_a);
    let dirty_b = map.get_or_create(id_b, 4).process_frame(&cells_b);
    assert!(dirty_a.iter().all(|&d| d));
    assert!(dirty_b.iter().all(|&d| d));

    // Second frame: same data → no dirty
    let dirty_a = map.get_or_create(id_a, 4).process_frame(&cells_a);
    let dirty_b = map.get_or_create(id_b, 4).process_frame(&cells_b);
    assert!(dirty_a.iter().all(|&d| !d));
    assert!(dirty_b.iter().all(|&d| !d));
}

#[test]
fn pane_damage_change_in_pane_a_does_not_mark_pane_b_dirty() {
    let mut map = PaneDamageMap::new();
    let id_a = PaneId(100);
    let id_b = PaneId(200);

    let cells = make_grid(4, 3, 'A');
    let _ = map.get_or_create(id_a, 4).process_frame(&cells);
    let _ = map.get_or_create(id_b, 4).process_frame(&cells);

    // Change pane A only
    let mut changed = cells.clone();
    changed[0] = GridCell::new('X', white(), black());
    let dirty_a = map.get_or_create(id_a, 4).process_frame(&changed);
    let dirty_b = map.get_or_create(id_b, 4).process_frame(&cells);

    assert!(dirty_a[0]); // Pane A row 0 is dirty
    assert!(dirty_b.iter().all(|&d| !d)); // Pane B is clean
}

#[test]
fn pane_damage_force_full_damage_all() {
    let mut map = PaneDamageMap::new();
    let id_a = PaneId(100);
    let id_b = PaneId(200);

    let cells = make_grid(4, 3, 'A');
    let _ = map.get_or_create(id_a, 4).process_frame(&cells);
    let _ = map.get_or_create(id_b, 4).process_frame(&cells);

    // Force all dirty (simulates resize)
    map.force_full_damage_all();

    let dirty_a = map.get_or_create(id_a, 4).process_frame(&cells);
    let dirty_b = map.get_or_create(id_b, 4).process_frame(&cells);
    assert!(dirty_a.iter().all(|&d| d));
    assert!(dirty_b.iter().all(|&d| d));
}

#[test]
fn pane_damage_new_pane_starts_with_full_damage() {
    let mut map = PaneDamageMap::new();
    let id = PaneId(100);
    let cells = make_grid(4, 3, 'A');

    // First frame for a new pane is always fully dirty
    let dirty = map.get_or_create(id, 4).process_frame(&cells);
    assert!(dirty.iter().all(|&d| d));
}

#[test]
fn pane_damage_remove_cleans_up() {
    let mut map = PaneDamageMap::new();
    let id = PaneId(100);
    let cells = make_grid(4, 3, 'A');
    let _ = map.get_or_create(id, 4).process_frame(&cells);
    assert_eq!(map.pane_count(), 1);

    map.remove(id);
    assert_eq!(map.pane_count(), 0);

    // Re-adding should start fresh (full damage)
    let dirty = map.get_or_create(id, 4).process_frame(&cells);
    assert!(dirty.iter().all(|&d| d));
}
