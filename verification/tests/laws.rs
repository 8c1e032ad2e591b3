use veloterm::input::selection::{
    apply_selection_flags, find_word_boundaries, selected_text, selection_contains, Selection,
    SelectionType, Side,
};
use veloterm::input::{
    match_pane_command, match_search_command, match_shell_command, match_tab_command,
    should_open_search, should_toggle_vi_mode, Key, ModifiersState, NamedKey, SearchCommand,
};
use veloterm::link::detector::detect_paths;
use veloterm::pane::{PaneId, PaneIdGenerator, PaneNode, PaneTree, RemoveResult, SplitDirection};
use std::time::Duration;
use veloterm::renderer::damage::{DamageState, DamageTracker, FrameMetrics, PaneDamageMap};
use veloterm::renderer::grid_renderer::{Color, GridCell, CELL_FLAG_SELECTED, CELL_FLAG_UNDERLINE};

fn row(text: &str, cols: usize) -> Vec<GridCell> {
    let fg = Color::new(1.0f32.to_bits(), 1.0f32.to_bits(), 1.0f32.to_bits(), 1.0f32.to_bits());
    let bg = Color::new(0, 0, 0, 1.0f32.to_bits());
    let mut cells: Vec<GridCell> = text.chars().take(cols).map(|c| GridCell::new(c, fg, bg)).collect();
    while cells.len() < cols {
        cells.push(GridCell::new(' ', fg, bg));
    }
    cells
}

fn sel(start: (i32, usize), end: (i32, usize), ty: SelectionType, ss: Side, es: Side) -> Selection {
    Selection { start, end, selection_type: ty, start_side: ss, end_side: es }
}

#[test]
fn reversed_selection_covers_same_cells() {
    let mut cells = row("alpha beta gamma", 20);
    cells.extend(row("delta epsilon", 20));
    let forward = sel((0, 3), (1, 7), SelectionType::Range, Side::Right, Side::Left);
    let backward = sel((1, 7), (0, 3), SelectionType::Range, Side::Left, Side::Right);
    for r in -1..3 {
        for c in 0..20 {
            assert_eq!(selection_contains(&forward, r, c), selection_contains(&backward, r, c));
        }
    }
    assert_eq!(selected_text(&cells, &forward, 20, 0), selected_text(&cells, &backward, 20, 0));
    let mut a = cells.clone();
    let mut b = cells.clone();
    apply_selection_flags(&mut a, &forward, 20, 0);
    apply_selection_flags(&mut b, &backward, 20, 0);
    assert_eq!(a, b);
}

#[test]
fn reversed_selection_of_one_cell_with_swapped_sides_differs() {
    // The one input on which direction matters: both ends on the same cell.
    let a = sel((0, 4), (0, 4), SelectionType::Range, Side::Left, Side::Right);
    let b = sel((0, 4), (0, 4), SelectionType::Range, Side::Right, Side::Left);
    assert!(selection_contains(&a, 0, 4));
    assert!(!selection_contains(&b, 0, 4));
}

#[test]
fn selection_flags_only_add_the_selected_bit() {
    let mut cells = row("hello", 10);
    cells[1].flags = CELL_FLAG_UNDERLINE;
    let s = sel((0, 0), (0, 4), SelectionType::Range, Side::Left, Side::Right);
    apply_selection_flags(&mut cells, &s, 10, 0);
    assert_eq!(cells[1].flags, CELL_FLAG_UNDERLINE | CELL_FLAG_SELECTED);
    let once = cells.clone();
    apply_selection_flags(&mut cells, &s, 10, 0);
    assert_eq!(cells, once);
    assert_eq!(cells[7].flags, 0);
}

#[test]
fn word_boundaries_accept_non_ascii_letters() {
    let cells = row("café noir", 12);
    assert_eq!(find_word_boundaries(&cells, 0, 1, 12), (0, 3));
    assert_eq!(find_word_boundaries(&cells, 0, 6, 12), (5, 8));
    let cells = row("a_b-c d", 8);
    assert_eq!(find_word_boundaries(&cells, 0, 0, 8), (0, 2));
}

#[test]
fn split_then_close_restores_the_tree() {
    let mut g = PaneIdGenerator::new();
    let mut tree = PaneTree::new(&mut g);
    tree.split_focused(SplitDirection::Vertical, &mut g);
    let before: Vec<PaneId> = tree.pane_ids();
    let first = before[0];
    tree.set_focus(first);
    let new_id = tree.split_focused(SplitDirection::Horizontal, &mut g).unwrap();
    assert_eq!(tree.pane_count(), 3);
    assert_eq!(tree.pane_ids(), vec![first, new_id, before[1]]);
    let r = tree.close_focused();
    assert_eq!(r, Some(first));
    assert_eq!(tree.pane_ids(), before);
    match tree.root() {
        PaneNode::Split { direction, first, second, .. } => {
            assert_eq!(*direction, SplitDirection::Vertical);
            assert!(first.is_leaf());
            assert!(second.is_leaf());
        }
        PaneNode::Leaf { .. } => panic!("root should still be a split"),
    }
}

#[test]
fn ids_from_one_generator_stay_distinct() {
    let mut g = PaneIdGenerator::new();
    let mut tree = PaneTree::new(&mut g);
    for i in 0..20 {
        let dir = if i % 2 == 0 { SplitDirection::Vertical } else { SplitDirection::Horizontal };
        tree.split_focused(dir, &mut g);
    }
    let ids = tree.pane_ids();
    assert_eq!(ids.len(), 21);
    for i in 0..ids.len() {
        for j in (i + 1)..ids.len() {
            assert_ne!(ids[i], ids[j]);
        }
    }
}

#[test]
fn remove_leaf_reports_what_happened() {
    let mut node = PaneNode::split(
        SplitDirection::Vertical,
        0.5f32.to_bits(),
        PaneNode::leaf(PaneId(1)),
        PaneNode::leaf(PaneId(2)),
    );
    assert_eq!(node.remove_leaf(PaneId(7)), RemoveResult::NotFound);
    assert_eq!(node.leaf_count(), 2);
    assert_eq!(node.remove_leaf(PaneId(1)), RemoveResult::Removed);
    assert_eq!(node.pane_id(), Some(PaneId(2)));
    assert_eq!(node.remove_leaf(PaneId(2)), RemoveResult::RemovedSelf);
    assert_eq!(node.pane_id(), Some(PaneId(2)));
}

#[test]
fn split_leaf_without_target_draws_no_id() {
    let mut g = PaneIdGenerator::new();
    let mut node = PaneNode::leaf(PaneId(40));
    assert_eq!(node.split_leaf(PaneId(41), SplitDirection::Vertical, &mut g), None);
    assert_eq!(PaneId::next(&mut g), PaneId(1));
    assert_eq!(node.split_leaf(PaneId(40), SplitDirection::Vertical, &mut g), Some(PaneId(2)));
    assert_eq!(node.leaf_ids(), vec![PaneId(40), PaneId(2)]);
}

#[test]
fn repeated_frame_is_clean_forced_frame_is_dirty() {
    let mut state = DamageState::new(5);
    let cells = row("0123456789", 10);
    assert_eq!(state.process_frame(&cells), vec![true, true]);
    assert_eq!(state.process_frame(&cells), vec![false, false]);
    state.force_full_damage();
    assert_eq!(state.process_frame(&cells), vec![true, true]);
    assert_eq!(state.process_frame(&cells), vec![false, false]);
}

#[test]
fn force_before_first_frame_is_consumed() {
    let mut state = DamageState::new(5);
    let cells = row("0123456789", 10);
    state.force_full_damage();
    assert_eq!(state.process_frame(&cells), vec![true, true]);
    assert_eq!(state.process_frame(&cells), vec![false, false]);
}

#[test]
fn detected_paths_are_the_line_text_at_their_columns() {
    let lines = vec!["see ~/a/b.txt, then (/var/log/x.log); also /x and /dev/null.".to_string()];
    let links = detect_paths(&lines);
    let chars: Vec<char> = lines[0].chars().collect();
    assert!(!links.is_empty());
    for l in &links {
        let text: String = chars[l.start.1..=l.end.1].iter().collect();
        assert_eq!(text, l.text);
        assert!(l.text.starts_with('/') || l.text.starts_with("~/"));
    }
    let texts: Vec<&str> = links.iter().map(|l| l.text.as_str()).collect();
    assert_eq!(texts, vec!["~/a/b.txt", "/var/log/x.log"]);
}

#[test]
fn word_boundaries_on_a_short_buffer() {
    // The buffer ends before the row does; the word stops at the space.
    let cells = row("hi yo", 5);
    assert_eq!(find_word_boundaries(&cells, 0, 0, 20), (0, 1));
    // A column past the row width is its own boundary when it is a word char.
    let cells = row("abcdefgh", 8);
    assert_eq!(find_word_boundaries(&cells, 0, 6, 4), (0, 6));
}

#[test]
fn each_shortcut_has_one_meaning() {
    let m = ModifiersState::new(true, true, false, false);
    let mut keys: Vec<Key> = "abcdefghijklmnopqrstuvwxyzABCDEFGHIJKLMNOPQRSTUVWXYZ0123456789{}=+-"
        .chars()
        .map(|c| Key::Character(c.to_string()))
        .collect();
    for named in [
        NamedKey::Space, NamedKey::Tab, NamedKey::PageUp, NamedKey::PageDown, NamedKey::ArrowUp,
        NamedKey::ArrowDown, NamedKey::ArrowLeft, NamedKey::ArrowRight, NamedKey::Enter,
    ] {
        keys.push(Key::Named(named));
    }
    for k in &keys {
        let hits = [
            match_pane_command(k, m).is_some(),
            match_tab_command(k, m).is_some(),
            match_shell_command(k, m).is_some(),
            should_open_search(k, m),
            should_toggle_vi_mode(k, m),
        ]
        .iter()
        .filter(|b| **b)
        .count();
        assert!(hits <= 1, "{:?} is bound {} times", k, hits);
    }
}

#[test]
fn search_shortcut_closes_search() {
    let m = ModifiersState::new(true, true, false, false);
    for text in [None, Some("F"), Some("f"), Some("x")] {
        assert!(should_open_search(&Key::Character("F".into()), m));
        assert_eq!(match_search_command(&Key::Character("F".into()), text, m), Some(SearchCommand::Close));
    }
}

#[test]
fn frame_metrics_summarises_every_period() {
    let mut m = FrameMetrics::new(3);
    let us = Duration::from_micros;
    assert_eq!(m.record(us(100), us(200), us(300)), None);
    assert_eq!(m.record(us(300), us(400), us(500)), None);
    assert_eq!(m.frame_count(), 2);
    let s = m.record(us(200), us(600), us(700));
    assert_eq!(s, Some((3, us(200), us(400), us(500))));
    assert_eq!(m.frame_count(), 0);
    assert_eq!(m.record(us(10), us(10), us(10)), None);
    assert_eq!(m.frame_count(), 1);
    let mut never = FrameMetrics::new(0);
    for _ in 0..5 {
        assert_eq!(never.record(us(1), us(1), us(1)), None);
    }
    assert_eq!(never.frame_count(), 5);
}

#[test]
fn marked_rows_are_listed_once_in_order() {
    let mut t = DamageTracker::new(50);
    for r in [49, 5, 20, 5, 70] {
        t.mark_row_dirty(r);
    }
    assert_eq!(t.dirty_rows(), vec![5, 20, 49]);
    assert!(t.has_damage());
    let mut u = DamageTracker::new(10);
    u.mark_row_dirty(10);
    u.mark_row_dirty(100);
    assert!(u.dirty_rows().is_empty());
    assert!(!u.has_damage());
}

#[test]
fn paths_of_joined_lines_are_paths_of_each_part() {
    let a = vec!["see /etc/hosts".to_string(), "nothing".to_string()];
    let b = vec!["~/notes.txt and /tmp/x.log".to_string()];
    let mut both = a.clone();
    both.extend(b.clone());
    let joined = detect_paths(&both);
    let mut expected = detect_paths(&a);
    for mut l in detect_paths(&b) {
        l.start.0 += a.len();
        l.end.0 += a.len();
        expected.push(l);
    }
    assert_eq!(joined, expected);
}

#[test]
fn damage_map_keeps_a_tracked_pane_and_ignores_new_columns() {
    let mut map = PaneDamageMap::new();
    let cells = row("abcd", 4);
    let _ = map.get_or_create(PaneId(7), 4).process_frame(&cells);
    assert_eq!(map.pane_count(), 1);
    // Tracked: same state (cache kept), cols argument ignored.
    let dirty = map.get_or_create(PaneId(7), 99).process_frame(&cells);
    assert_eq!(dirty, vec![false]);
    assert_eq!(map.pane_count(), 1);
    let _ = map.get_or_create(PaneId(8), 4);
    assert_eq!(map.pane_count(), 2);
}

#[test]
fn flags_use_the_offset_as_i32() {
    // An offset of 2^32 + 1 wraps to 1 as an i32: absolute row -1 is viewport row 0.
    if usize::BITS == 64 {
        let mut cells = row("abcd", 4);
        cells.extend(row("efgh", 4));
        let s = sel((-1, 0), (-1, 3), SelectionType::Range, Side::Left, Side::Right);
        let offset = (1usize << 32) + 1;
        apply_selection_flags(&mut cells, &s, 4, offset);
        assert_ne!(cells[0].flags & CELL_FLAG_SELECTED, 0);
        assert_ne!(cells[3].flags & CELL_FLAG_SELECTED, 0);
        assert_eq!(cells[4].flags & CELL_FLAG_SELECTED, 0);
        assert_eq!(selected_text(&cells, &s, 4, offset), "abcd");
    }
}
