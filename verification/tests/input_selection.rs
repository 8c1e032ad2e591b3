use veloterm::input::selection::{
    apply_selection_flags, find_word_boundaries, selected_text, selected_text_block,
    selected_text_lines, selection_contains, Selection, SelectionType, Side,
};
use veloterm::renderer::grid_renderer::{Color, GridCell, CELL_FLAG_SELECTED};


/// Helper: create a row of cells from a string, padded to `cols` with spaces.
fn make_row(text: &str, cols: usize) -> Vec<GridCell> {
    let fg = Color::new(1.0f32.to_bits(), 1.0f32.to_bits(), 1.0f32.to_bits(), 1.0f32.to_bits());
    let bg = Color::new(0.0f32.to_bits(), 0.0f32.to_bits(), 0.0f32.to_bits(), 1.0f32.to_bits());
    let mut cells = Vec::with_capacity(cols);
    for ch in text.chars().take(cols) {
        cells.push(GridCell::new(ch, fg, bg));
    }
    while cells.len() < cols {
        cells.push(GridCell::new(' ', fg, bg));
    }
    cells
}

#[test]
fn selection_contains_start_cell() {
    let sel = Selection {
        start: (0, 5),
        end: (0, 10),
        selection_type: SelectionType::Range,
        start_side: Side::Left,
        end_side: Side::Right,
    };
    assert!(selection_contains(&sel, 0, 5));
}

#[test]
fn selection_contains_end_cell() {
    let sel = Selection {
        start: (0, 5),
        end: (0, 10),
        selection_type: SelectionType::Range,
        start_side: Side::Left,
        end_side: Side::Right,
    };
    assert!(selection_contains(&sel, 0, 10));
}

#[test]
fn selection_does_not_contain_outside() {
    let sel = Selection {
        start: (0, 5),
        end: (0, 10),
        selection_type: SelectionType::Range,
        start_side: Side::Left,
        end_side: Side::Right,
    };
    assert!(!selection_contains(&sel, 0, 4));
    assert!(!selection_contains(&sel, 0, 11));
}

#[test]
fn selection_multiline_contains_middle_row() {
    let sel = Selection {
        start: (0, 5),
        end: (2, 10),
        selection_type: SelectionType::Range,
        start_side: Side::Left,
        end_side: Side::Right,
    };
    // Middle row (row 1) should be fully selected
    assert!(selection_contains(&sel, 1, 0));
    assert!(selection_contains(&sel, 1, 79));
}

#[test]
fn selection_reversed_start_end() {
    // User drags from right to left: end < start in same row
    let sel = Selection {
        start: (0, 10),
        end: (0, 5),
        selection_type: SelectionType::Range,
        start_side: Side::Left,
        end_side: Side::Right,
    };
    assert!(selection_contains(&sel, 0, 7));
}

// ── Word boundary detection ────────────────────────────────────

#[test]
fn word_boundaries_single_word() {
    let cells = make_row("hello world", 20);
    let (start, end) = find_word_boundaries(&cells, 0, 2, 20);
    assert_eq!((start, end), (0, 4));
}

#[test]
fn word_boundaries_at_space() {
    let cells = make_row("hello world", 20);
    let (start, end) = find_word_boundaries(&cells, 0, 5, 20);
    assert_eq!((start, end), (5, 5));
}

#[test]
fn word_boundaries_with_punctuation() {
    let cells = make_row("foo.bar baz", 20);
    let (start, end) = find_word_boundaries(&cells, 0, 0, 20);
    assert_eq!((start, end), (0, 2));
}

// ── Line selection ─────────────────────────────────────────────

#[test]
fn line_selection_spans_full_row() {
    let sel = Selection {
        start: (1, 0),
        end: (1, 19),
        selection_type: SelectionType::Line,
        start_side: Side::Left,
        end_side: Side::Right,
    };
    for col in 0..20 {
        assert!(selection_contains(&sel, 1, col));
    }
}

// ── Selected text extraction ───────────────────────────────────

#[test]
fn selected_text_single_line() {
    let cells = make_row("hello world", 20);
    let sel = Selection {
        start: (0, 0),
        end: (0, 4),
        selection_type: SelectionType::Range,
        start_side: Side::Left,
        end_side: Side::Right,
    };
    let text = selected_text(&cells, &sel, 20, 0);
    assert_eq!(text, "hello");
}

#[test]
fn selected_text_multiline_trims_trailing_spaces() {
    let mut cells = make_row("hello world", 20);
    cells.extend(make_row("second line!", 20));
    let sel = Selection {
        start: (0, 6),
        end: (1, 5),
        selection_type: SelectionType::Range,
        start_side: Side::Left,
        end_side: Side::Right,
    };
    let text = selected_text(&cells, &sel, 20, 0);
    assert_eq!(text, "world\nsecond");
}

// ── Apply selection flags ──────────────────────────────────────

#[test]
fn apply_selection_flags_sets_selected_flag() {
    let mut cells = make_row("hello", 10);
    let sel = Selection {
        start: (0, 0),
        end: (0, 4),
        selection_type: SelectionType::Range,
        start_side: Side::Left,
        end_side: Side::Right,
    };
    apply_selection_flags(&mut cells, &sel, 10, 0);
    assert_ne!(cells[0].flags & CELL_FLAG_SELECTED, 0);
    assert_ne!(cells[4].flags & CELL_FLAG_SELECTED, 0);
}

#[test]
fn apply_selection_flags_does_not_set_outside() {
    let mut cells = make_row("hello world", 20);
    let sel = Selection {
        start: (0, 0),
        end: (0, 4),
        selection_type: SelectionType::Range,
        start_side: Side::Left,
        end_side: Side::Right,
    };
    apply_selection_flags(&mut cells, &sel, 20, 0);
    assert_eq!(cells[5].flags & CELL_FLAG_SELECTED, 0);
}

// ── Selection cleared ──────────────────────────────────────────

#[test]
fn cleared_selection_flags_reset_to_zero() {
    let mut cells = make_row("hello", 10);
    let sel = Selection {
        start: (0, 0),
        end: (0, 4),
        selection_type: SelectionType::Range,
        start_side: Side::Left,
        end_side: Side::Right,
    };
    apply_selection_flags(&mut cells, &sel, 10, 0);
    assert_ne!(cells[0].flags & CELL_FLAG_SELECTED, 0);
    // Clear by applying empty-range or resetting flags
    for cell in cells.iter_mut() {
        cell.flags &= !CELL_FLAG_SELECTED;
    }
    assert_eq!(cells[0].flags & CELL_FLAG_SELECTED, 0);
}

// ── Visual-block selection ──────────────────────────────────────

#[test]
fn visual_block_contains_only_rectangle() {
    let sel = Selection {
        start: (0, 2),
        end: (2, 5),
        selection_type: SelectionType::VisualBlock,
        start_side: Side::Left,
        end_side: Side::Right,
    };
    // Inside the rectangle
    assert!(selection_contains(&sel, 0, 3));
    assert!(selection_contains(&sel, 1, 2));
    assert!(selection_contains(&sel, 1, 5));
    assert!(selection_contains(&sel, 2, 4));
    // Outside the column range
    assert!(!selection_contains(&sel, 1, 1));
    assert!(!selection_contains(&sel, 1, 6));
    // Outside the row range
    assert!(!selection_contains(&sel, 3, 3));
}

#[test]
fn visual_block_apply_flags_rectangle() {
    let mut cells = make_row("hello world", 20);
    cells.extend(make_row("second line!", 20));
    cells.extend(make_row("third  line!", 20));
    let sel = Selection {
        start: (0, 2),
        end: (2, 5),
        selection_type: SelectionType::VisualBlock,
        start_side: Side::Left,
        end_side: Side::Right,
    };
    apply_selection_flags(&mut cells, &sel, 20, 0);
    // Row 0: cols 2-5 selected
    assert_ne!(cells[2].flags & CELL_FLAG_SELECTED, 0);
    assert_ne!(cells[5].flags & CELL_FLAG_SELECTED, 0);
    assert_eq!(cells[1].flags & CELL_FLAG_SELECTED, 0);
    assert_eq!(cells[6].flags & CELL_FLAG_SELECTED, 0);
    // Row 1: cols 2-5 selected
    assert_ne!(cells[22].flags & CELL_FLAG_SELECTED, 0);
    assert_ne!(cells[25].flags & CELL_FLAG_SELECTED, 0);
    assert_eq!(cells[21].flags & CELL_FLAG_SELECTED, 0);
}

#[test]
fn selected_text_block_extracts_rectangle() {
    let mut cells = make_row("hello world", 20);
    cells.extend(make_row("abcde fghij", 20));
    let sel = Selection {
        start: (0, 0),
        end: (1, 4),
        selection_type: SelectionType::VisualBlock,
        start_side: Side::Left,
        end_side: Side::Right,
    };
    let text = selected_text_block(&cells, &sel, 20, 0);
    assert_eq!(text, "hello\nabcde");
}

#[test]
fn selected_text_lines_full_rows() {
    let mut cells = make_row("first line", 20);
    cells.extend(make_row("second line", 20));
    cells.extend(make_row("third line", 20));
    let sel = Selection {
        start: (0, 0),
        end: (1, 19),
        selection_type: SelectionType::Line,
        start_side: Side::Left,
        end_side: Side::Right,
    };
    let text = selected_text_lines(&cells, &sel, 20, 0);
    assert_eq!(text, "first line\nsecond line");
}

// ── Absolute coordinate with display_offset ────────────────────

#[test]
fn selection_with_scroll_offset_maps_correctly() {
    // 3 viewport rows, selection at absolute rows -2..-1 (scrollback)
    // display_offset=2 means viewport row 0 = abs -2, row 1 = abs -1, row 2 = abs 0
    let mut cells = make_row("scrollback1", 20);
    cells.extend(make_row("scrollback2", 20));
    cells.extend(make_row("screen line", 20));
    let sel = Selection {
        start: (-2, 0),
        end: (-2, 10),
        selection_type: SelectionType::Range,
        start_side: Side::Left,
        end_side: Side::Right,
    };
    // display_offset=2: abs -2 + 2 = viewport row 0
    let text = selected_text(&cells, &sel, 20, 2);
    assert_eq!(text, "scrollback1");
}

#[test]
fn apply_flags_with_scroll_offset() {
    let mut cells = make_row("line0", 10);
    cells.extend(make_row("line1", 10));
    // Selection at absolute row -1 with display_offset=1 → viewport row 0
    let sel = Selection {
        start: (-1, 0),
        end: (-1, 4),
        selection_type: SelectionType::Range,
        start_side: Side::Left,
        end_side: Side::Right,
    };
    apply_selection_flags(&mut cells, &sel, 10, 1);
    assert_ne!(cells[0].flags & CELL_FLAG_SELECTED, 0); // viewport row 0
    assert_eq!(cells[10].flags & CELL_FLAG_SELECTED, 0); // viewport row 1 unaffected
}

#[test]
fn selection_offscreen_skipped() {
    let mut cells = make_row("visible", 10);
    // Selection at absolute row -5, display_offset=1 → viewport row -4 (off-screen)
    let sel = Selection {
        start: (-5, 0),
        end: (-5, 6),
        selection_type: SelectionType::Range,
        start_side: Side::Left,
        end_side: Side::Right,
    };
    apply_selection_flags(&mut cells, &sel, 10, 1);
    // No cell should be flagged
    for cell in &cells {
        assert_eq!(cell.flags & CELL_FLAG_SELECTED, 0);
    }
}

// ── Selection clamping to occupied cells (Bug 1) ─────────────

#[test]
fn selection_clamps_to_last_occupied_column() {
    // Row 0: "hello" (5 chars) in 80-column grid
    // Row 1: "world!" (6 chars) in 80-column grid
    let mut cells = make_row("hello", 80);
    cells.extend(make_row("world!", 80));
    let sel = Selection {
        start: (0, 0),
        end: (1, 5),
        selection_type: SelectionType::Range,
        start_side: Side::Left,
        end_side: Side::Right,
    };
    apply_selection_flags(&mut cells, &sel, 80, 0);
    // Row 0: "hello" occupies cols 0-4, so cols 0-4 should be selected
    for col in 0..5 {
        assert_ne!(cells[col].flags & CELL_FLAG_SELECTED, 0,
            "row 0, col {} should be selected", col);
    }
    // Row 0: cols beyond "hello" (5-79) should NOT be selected
    for col in 5..80 {
        assert_eq!(cells[col].flags & CELL_FLAG_SELECTED, 0,
            "row 0, col {} should NOT be selected (empty)", col);
    }
    // Row 1: cols 0-5 should be selected (end of selection)
    for col in 0..6 {
        assert_ne!(cells[80 + col].flags & CELL_FLAG_SELECTED, 0,
            "row 1, col {} should be selected", col);
    }
}

#[test]
fn selection_middle_rows_clamped_to_content() {
    // 3 rows in 40-column grid
    let mut cells = make_row("start line", 40);     // 10 chars
    cells.extend(make_row("mid", 40));               // 3 chars
    cells.extend(make_row("end line here", 40));     // 13 chars
    let sel = Selection {
        start: (0, 0),
        end: (2, 12),
        selection_type: SelectionType::Range,
        start_side: Side::Left,
        end_side: Side::Right,
    };
    apply_selection_flags(&mut cells, &sel, 40, 0);
    // Row 0 (start): clamped to last occupied = col 9 ("start line")
    assert_ne!(cells[9].flags & CELL_FLAG_SELECTED, 0);
    assert_eq!(cells[10].flags & CELL_FLAG_SELECTED, 0);
    // Row 1 (middle): clamped to last occupied = col 2 ("mid")
    assert_ne!(cells[40].flags & CELL_FLAG_SELECTED, 0);  // col 0
    assert_ne!(cells[42].flags & CELL_FLAG_SELECTED, 0);  // col 2
    assert_eq!(cells[43].flags & CELL_FLAG_SELECTED, 0);  // col 3 empty
    assert_eq!(cells[79].flags & CELL_FLAG_SELECTED, 0);  // col 39 empty
    // Row 2 (end): uses selection end col = 12
    assert_ne!(cells[80 + 12].flags & CELL_FLAG_SELECTED, 0);
    assert_eq!(cells[80 + 13].flags & CELL_FLAG_SELECTED, 0);
}

#[test]
fn line_selection_highlights_full_row_width() {
    // Line selection should NOT clamp — it selects full rows
    let mut cells = make_row("short", 20);
    let sel = Selection {
        start: (0, 0),
        end: (0, 19),
        selection_type: SelectionType::Line,
        start_side: Side::Left,
        end_side: Side::Right,
    };
    apply_selection_flags(&mut cells, &sel, 20, 0);
    // All 20 columns should be selected for Line type
    for col in 0..20 {
        assert_ne!(cells[col].flags & CELL_FLAG_SELECTED, 0,
            "line selection: col {} should be selected", col);
    }
}
