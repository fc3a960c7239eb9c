use tab_tiling::clipboard::{clipboard_sequence, frame_for_clipboard};
use tab_tiling::geometry::{
    pane_content_offset, split_horizontally, split_vertically, Position, PositionAndSize,
};
use tab_tiling::layout::{LayoutRun, LayoutSlot};
use tab_tiling::pane::{Pane, PaneId};
use tab_tiling::tab::{Signal, Tab};

fn viewport(cols: usize, rows: usize) -> PositionAndSize {
    PositionAndSize::new(0, 0, rows, cols)
}

fn tab_with_one_pane(cols: usize, rows: usize) -> Tab {
    Tab::new(0, 0, String::from("tab"), &viewport(cols, rows), None, Some(PaneId::Terminal(1)), false)
}

fn rect_of(tab: &Tab, id: PaneId) -> PositionAndSize {
    tab.panes.iter().find(|p| p.id == id).expect("pane is there").position_and_size
}

fn ids(tab: &Tab) -> Vec<PaneId> {
    tab.panes.iter().map(|p| p.id).collect()
}

fn slot(x: usize, y: usize, rows: usize, cols: usize) -> LayoutSlot {
    LayoutSlot { borderless: false, run: LayoutRun::Terminal, position_and_size: PositionAndSize::new(x, y, rows, cols) }
}

#[test]
fn vertical_split_of_even_width_gives_equal_halves() {
    let mut tab = tab_with_one_pane(80, 24);
    tab.vertical_split(PaneId::Terminal(2));
    assert_eq!(rect_of(&tab, PaneId::Terminal(1)), PositionAndSize::new(0, 0, 24, 40));
    assert_eq!(rect_of(&tab, PaneId::Terminal(2)), PositionAndSize::new(40, 0, 24, 40));
    assert_eq!(tab.active_terminal, Some(PaneId::Terminal(2)));
}

#[test]
fn vertical_split_of_odd_width_gives_left_the_extra_column() {
    let mut tab = tab_with_one_pane(81, 24);
    tab.vertical_split(PaneId::Terminal(2));
    assert_eq!(rect_of(&tab, PaneId::Terminal(1)).cols, 41);
    assert_eq!(rect_of(&tab, PaneId::Terminal(2)).cols, 40);
    assert_eq!(rect_of(&tab, PaneId::Terminal(2)).x, 41);
}

#[test]
fn closing_the_bottom_of_an_l_shape_gives_its_rows_to_both_top_panes() {
    let mut tab = tab_with_one_pane(80, 24);
    tab.horizontal_split(PaneId::Terminal(2));
    tab.move_focus_up();
    assert_eq!(tab.active_terminal, Some(PaneId::Terminal(1)));
    tab.vertical_split(PaneId::Terminal(3));
    assert_eq!(rect_of(&tab, PaneId::Terminal(1)), PositionAndSize::new(0, 0, 12, 40));
    assert_eq!(rect_of(&tab, PaneId::Terminal(3)), PositionAndSize::new(40, 0, 12, 40));
    assert_eq!(rect_of(&tab, PaneId::Terminal(2)), PositionAndSize::new(0, 12, 12, 80));
    tab.close_pane(PaneId::Terminal(2));
    assert_eq!(ids(&tab), vec![PaneId::Terminal(1), PaneId::Terminal(3)]);
    assert_eq!(rect_of(&tab, PaneId::Terminal(1)), PositionAndSize::new(0, 0, 24, 40));
    assert_eq!(rect_of(&tab, PaneId::Terminal(3)), PositionAndSize::new(40, 0, 24, 40));
}

#[test]
fn resize_left_of_a_minimal_pane_at_the_edge_changes_nothing() {
    let mut tab = Tab::new(0, 0, String::new(), &viewport(80, 24), None, None, false);
    tab.apply_layout(vec![slot(0, 0, 24, 5), slot(5, 0, 24, 75)], vec![1, 2]);
    assert_eq!(tab.active_terminal, Some(PaneId::Terminal(1)));
    tab.resize_left();
    assert_eq!(rect_of(&tab, PaneId::Terminal(1)), PositionAndSize::new(0, 0, 24, 5));
    assert_eq!(rect_of(&tab, PaneId::Terminal(2)), PositionAndSize::new(5, 0, 24, 75));
}

#[test]
fn resize_right_moves_the_shared_border() {
    let mut tab = tab_with_one_pane(80, 24);
    tab.vertical_split(PaneId::Terminal(2));
    tab.move_focus_left();
    tab.resize_right();
    assert_eq!(rect_of(&tab, PaneId::Terminal(1)), PositionAndSize::new(0, 0, 24, 50));
    assert_eq!(rect_of(&tab, PaneId::Terminal(2)), PositionAndSize::new(50, 0, 24, 30));
}

#[test]
fn resize_left_of_the_right_pane_grows_it_leftward() {
    let mut tab = tab_with_one_pane(80, 24);
    tab.vertical_split(PaneId::Terminal(2));
    tab.resize_left();
    assert_eq!(rect_of(&tab, PaneId::Terminal(1)), PositionAndSize::new(0, 0, 24, 30));
    assert_eq!(rect_of(&tab, PaneId::Terminal(2)), PositionAndSize::new(30, 0, 24, 50));
}

#[test]
fn resize_down_and_up_move_rows_by_two() {
    let mut tab = tab_with_one_pane(80, 24);
    tab.horizontal_split(PaneId::Terminal(2));
    tab.resize_up();
    assert_eq!(rect_of(&tab, PaneId::Terminal(1)).rows, 10);
    assert_eq!(rect_of(&tab, PaneId::Terminal(2)), PositionAndSize::new(0, 10, 14, 80));
    tab.resize_down();
    assert_eq!(rect_of(&tab, PaneId::Terminal(2)), PositionAndSize::new(0, 12, 12, 80));
}

#[test]
fn repeated_shrinking_stops_at_the_smallest_width() {
    let mut tab = tab_with_one_pane(30, 24);
    tab.vertical_split(PaneId::Terminal(2));
    for _ in 0..10 {
        tab.resize_right();
    }
    let right = rect_of(&tab, PaneId::Terminal(2));
    assert!(right.cols >= 5);
    assert_eq!(rect_of(&tab, PaneId::Terminal(1)).cols + right.cols, 30);
}

#[test]
fn resize_moves_the_aligned_neighbour_along() {
    // 1 over 3 on the left, one tall pane 2 on the right.
    let mut tab = Tab::new(0, 0, String::new(), &viewport(80, 24), None, None, false);
    tab.apply_layout(vec![slot(0, 0, 12, 40), slot(40, 0, 24, 40), slot(0, 12, 12, 40)], vec![1, 2, 3]);
    tab.resize_right();
    assert_eq!(rect_of(&tab, PaneId::Terminal(1)), PositionAndSize::new(0, 0, 12, 50));
    assert_eq!(rect_of(&tab, PaneId::Terminal(3)), PositionAndSize::new(0, 12, 12, 50));
    assert_eq!(rect_of(&tab, PaneId::Terminal(2)), PositionAndSize::new(50, 0, 24, 30));
}

#[test]
fn resize_stops_at_a_border_anchored_on_the_far_side() {
    // A 2x2 grid: the border between 2 and 4 anchors the chain, so only 1 and 2 move.
    let mut tab = Tab::new(0, 0, String::new(), &viewport(80, 24), None, None, false);
    tab.apply_layout(
        vec![slot(0, 0, 12, 40), slot(40, 0, 12, 40), slot(0, 12, 12, 40), slot(40, 12, 12, 40)],
        vec![1, 2, 3, 4],
    );
    tab.resize_right();
    assert_eq!(rect_of(&tab, PaneId::Terminal(1)), PositionAndSize::new(0, 0, 12, 50));
    assert_eq!(rect_of(&tab, PaneId::Terminal(2)), PositionAndSize::new(50, 0, 12, 30));
    assert_eq!(rect_of(&tab, PaneId::Terminal(3)), PositionAndSize::new(0, 12, 12, 40));
    assert_eq!(rect_of(&tab, PaneId::Terminal(4)), PositionAndSize::new(40, 12, 12, 40));
}

#[test]
fn split_then_close_restores_the_pane() {
    let mut tab = tab_with_one_pane(81, 24);
    tab.vertical_split(PaneId::Terminal(2));
    tab.close_pane(PaneId::Terminal(2));
    assert_eq!(rect_of(&tab, PaneId::Terminal(1)), PositionAndSize::new(0, 0, 24, 81));
    assert_eq!(tab.active_terminal, Some(PaneId::Terminal(1)));
}

#[test]
fn split_of_a_narrow_pane_is_turned_down() {
    let mut tab = tab_with_one_pane(9, 24);
    tab.vertical_split(PaneId::Terminal(2));
    assert_eq!(ids(&tab), vec![PaneId::Terminal(1)]);
    assert!(matches!(tab.signals.last(), Some(Signal::ClosePane(PaneId::Terminal(2)))));
    tab.horizontal_split(PaneId::Terminal(3));
    assert_eq!(rect_of(&tab, PaneId::Terminal(3)), PositionAndSize::new(0, 12, 12, 9));
}

#[test]
fn horizontal_split_of_a_short_pane_is_turned_down() {
    let mut tab = tab_with_one_pane(80, 9);
    tab.horizontal_split(PaneId::Terminal(2));
    assert_eq!(ids(&tab), vec![PaneId::Terminal(1)]);
    assert!(matches!(tab.signals.last(), Some(Signal::ClosePane(PaneId::Terminal(2)))));
}

#[test]
fn new_pane_in_an_empty_tab_fills_the_viewport() {
    let mut tab = Tab::new(0, 0, String::new(), &viewport(80, 24), None, None, false);
    tab.new_pane(PaneId::Terminal(7));
    assert_eq!(rect_of(&tab, PaneId::Terminal(7)), PositionAndSize::new(0, 0, 24, 80));
    assert_eq!(tab.active_terminal, Some(PaneId::Terminal(7)));
}

#[test]
fn new_pane_splits_a_wide_pane_into_columns_and_a_tall_one_into_rows() {
    let mut tab = tab_with_one_pane(100, 20);
    tab.new_pane(PaneId::Terminal(2));
    // 20 * 4 = 80 is not more than 100 columns: split into columns.
    assert_eq!(rect_of(&tab, PaneId::Terminal(2)), PositionAndSize::new(50, 0, 20, 50));
    tab.new_pane(PaneId::Terminal(3));
    // Both weigh the same; the first in the registry (pane 1, 50 columns, 20 rows) is split into rows.
    assert_eq!(rect_of(&tab, PaneId::Terminal(1)), PositionAndSize::new(0, 0, 10, 50));
    assert_eq!(rect_of(&tab, PaneId::Terminal(3)), PositionAndSize::new(0, 10, 10, 50));
}

#[test]
fn new_pane_without_room_is_turned_down() {
    let mut tab = tab_with_one_pane(10, 10);
    tab.new_pane(PaneId::Terminal(2));
    assert_eq!(ids(&tab), vec![PaneId::Terminal(1)]);
    assert!(matches!(tab.signals.last(), Some(Signal::ClosePane(PaneId::Terminal(2)))));
}

#[test]
fn pane_limit_closes_panes_before_a_split() {
    let mut tab = Tab::new(0, 0, String::new(), &viewport(80, 24), Some(2), Some(PaneId::Terminal(1)), false);
    tab.vertical_split(PaneId::Terminal(2));
    assert_eq!(tab.panes.len(), 2);
    tab.vertical_split(PaneId::Terminal(3));
    assert!(tab.panes.len() <= 2);
    assert!(tab.signals.iter().any(|s| matches!(s, Signal::ClosePane(PaneId::Terminal(2)))));
}

#[test]
fn closing_the_last_pane_leaves_no_active_pane() {
    let mut tab = tab_with_one_pane(80, 24);
    tab.close_focused_pane();
    assert!(tab.panes.is_empty());
    assert_eq!(tab.active_terminal, None);
    assert!(matches!(tab.signals.last(), Some(Signal::ClosePane(PaneId::Terminal(1)))));
}

#[test]
fn fullscreen_twice_restores_every_pane() {
    let mut tab = tab_with_one_pane(80, 24);
    tab.vertical_split(PaneId::Terminal(2));
    let before: Vec<PositionAndSize> = tab.panes.iter().map(|p| p.position_and_size).collect();
    tab.toggle_active_pane_fullscreen();
    assert!(tab.fullscreen_is_active);
    assert_eq!(tab.panes_to_hide, vec![PaneId::Terminal(1)]);
    let active = tab.panes.iter().find(|p| p.id == PaneId::Terminal(2)).unwrap();
    assert_eq!(active.position_and_size_override, Some(viewport(80, 24)));
    tab.toggle_active_pane_fullscreen();
    assert!(!tab.fullscreen_is_active);
    assert!(tab.panes_to_hide.is_empty());
    let after: Vec<PositionAndSize> = tab.panes.iter().map(|p| p.position_and_size).collect();
    assert_eq!(before, after);
    assert!(tab.panes.iter().all(|p| p.position_and_size_override.is_none()));
}

#[test]
fn fullscreen_with_a_single_pane_does_nothing() {
    let mut tab = tab_with_one_pane(80, 24);
    tab.toggle_active_pane_fullscreen();
    assert!(!tab.fullscreen_is_active);
}

#[test]
fn directional_focus_follows_neighbours() {
    let mut tab = tab_with_one_pane(80, 24);
    tab.vertical_split(PaneId::Terminal(2));
    assert!(tab.move_focus_left());
    assert_eq!(tab.active_terminal, Some(PaneId::Terminal(1)));
    assert!(!tab.move_focus_left());
    assert_eq!(tab.active_terminal, Some(PaneId::Terminal(1)));
    assert!(tab.move_focus_right());
    assert_eq!(tab.active_terminal, Some(PaneId::Terminal(2)));
}

#[test]
fn directional_focus_prefers_the_most_recently_active_pane() {
    // 1 on the left, 2 over 3 on the right.
    let mut tab = Tab::new(0, 0, String::new(), &viewport(80, 24), None, None, false);
    tab.apply_layout(vec![slot(0, 0, 24, 40), slot(40, 0, 12, 40), slot(40, 12, 12, 40)], vec![1, 2, 3]);
    tab.move_focus_right();
    tab.move_focus_down();
    assert_eq!(tab.active_terminal, Some(PaneId::Terminal(3)));
    tab.move_focus_left();
    assert_eq!(tab.active_terminal, Some(PaneId::Terminal(1)));
    tab.move_focus_right();
    assert_eq!(tab.active_terminal, Some(PaneId::Terminal(3)));
}

#[test]
fn next_and_previous_pane_cycle_in_screen_order() {
    let mut tab = Tab::new(0, 0, String::new(), &viewport(80, 24), None, None, false);
    tab.apply_layout(vec![slot(40, 12, 12, 40), slot(0, 0, 24, 40), slot(40, 0, 12, 40)], vec![1, 2, 3]);
    assert_eq!(tab.active_terminal, Some(PaneId::Terminal(1)));
    tab.focus_next_pane();
    assert_eq!(tab.active_terminal, Some(PaneId::Terminal(2)));
    tab.focus_next_pane();
    assert_eq!(tab.active_terminal, Some(PaneId::Terminal(3)));
    tab.focus_previous_pane();
    assert_eq!(tab.active_terminal, Some(PaneId::Terminal(2)));
    tab.focus_previous_pane();
    assert_eq!(tab.active_terminal, Some(PaneId::Terminal(1)));
    tab.move_focus();
    assert_eq!(tab.active_terminal, Some(PaneId::Terminal(2)));
}

#[test]
fn layout_hides_panes_without_a_slot_and_closes_unused_processes() {
    let mut tab = Tab::new(0, 0, String::new(), &viewport(80, 24), None, Some(PaneId::Terminal(1)), false);
    tab.vertical_split(PaneId::Terminal(2));
    tab.apply_layout(vec![slot(0, 0, 24, 80)], vec![9]);
    assert_eq!(rect_of(&tab, PaneId::Terminal(1)), PositionAndSize::new(0, 0, 24, 80));
    assert_eq!(tab.panes_to_hide, vec![PaneId::Terminal(2)]);
    assert!(tab.signals.iter().any(|s| matches!(s, Signal::ClosePane(PaneId::Terminal(9)))));
}

#[test]
fn borderless_layout_slot_takes_rows_from_the_viewport() {
    let mut tab = Tab::new(0, 0, String::new(), &viewport(80, 24), None, None, false);
    let bar = LayoutSlot { borderless: true, run: LayoutRun::Plugin(5), position_and_size: PositionAndSize::new(0, 23, 1, 80) };
    tab.apply_layout(vec![slot(0, 0, 23, 80), bar], vec![1]);
    assert_eq!(tab.viewport, PositionAndSize::new(0, 0, 23, 80));
    assert_eq!(rect_of(&tab, PaneId::Plugin(5)), PositionAndSize::new(0, 23, 1, 80));
    assert_eq!(ids(&tab), vec![PaneId::Terminal(1), PaneId::Plugin(5)]);
}

#[test]
fn offset_viewport_on_each_edge() {
    let mut tab = Tab::new(0, 0, String::new(), &viewport(80, 24), None, None, false);
    tab.offset_viewport(&PositionAndSize::new(0, 0, 1, 80));
    assert_eq!(tab.viewport, PositionAndSize::new(0, 1, 23, 80));
    tab.offset_viewport(&PositionAndSize::new(0, 1, 23, 10));
    assert_eq!(tab.viewport, PositionAndSize::new(10, 1, 23, 70));
    tab.offset_viewport(&PositionAndSize::new(5, 5, 2, 2));
    assert_eq!(tab.viewport, PositionAndSize::new(10, 1, 23, 70));
}

#[test]
fn split_primitives_give_the_first_half_the_odd_cell() {
    let r = PositionAndSize::new(3, 4, 7, 9);
    let (left, right) = split_vertically(&r);
    assert_eq!((left.x, left.cols, right.x, right.cols), (3, 5, 8, 4));
    let (top, bottom) = split_horizontally(&r);
    assert_eq!((top.y, top.rows, bottom.y, bottom.rows), (4, 4, 8, 3));
}

#[test]
fn content_offset_reserves_a_line_away_from_the_far_edges() {
    let vp = viewport(80, 24);
    assert_eq!(pane_content_offset(&PositionAndSize::new(0, 0, 12, 40), &vp), (1, 1));
    assert_eq!(pane_content_offset(&PositionAndSize::new(40, 12, 12, 40), &vp), (0, 0));
}

#[test]
fn overlap_and_adjacency_predicates() {
    let a = Pane::new(PaneId::Terminal(1), PositionAndSize::new(0, 0, 10, 10), 1);
    let b = Pane::new(PaneId::Terminal(2), PositionAndSize::new(10, 5, 10, 10), 2);
    assert!(b.is_directly_right_of(&a));
    assert!(a.is_directly_left_of(&b));
    assert!(a.horizontally_overlaps_with(&b));
    assert_eq!(a.get_horizontal_overlap_with(&b), 5);
    assert!(!a.vertically_overlaps_with(&b));
    assert!(a.can_reduce_width_by(5));
    assert!(!a.can_reduce_width_by(6));
    assert!(a.can_increase_width_by(100));
}

#[test]
fn fixed_width_pane_does_not_grow() {
    let mut tab = Tab::new(0, 0, String::new(), &viewport(80, 24), None, None, false);
    tab.apply_layout(vec![slot(0, 0, 24, 40), slot(40, 0, 24, 40)], vec![1, 2]);
    tab.set_pane_fixed_width(PaneId::Terminal(1), 40);
    tab.resize_right();
    assert_eq!(rect_of(&tab, PaneId::Terminal(1)).cols, 40);
    assert_eq!(rect_of(&tab, PaneId::Terminal(2)).cols, 40);
}

#[test]
fn unselectable_active_pane_hands_on_the_focus() {
    let mut tab = tab_with_one_pane(80, 24);
    tab.vertical_split(PaneId::Terminal(2));
    tab.set_pane_selectable(PaneId::Terminal(2), false);
    assert_eq!(tab.active_terminal, Some(PaneId::Terminal(1)));
}

#[test]
fn click_focuses_the_pane_under_the_pointer() {
    let mut tab = tab_with_one_pane(80, 24);
    tab.vertical_split(PaneId::Terminal(2));
    tab.handle_left_click(&Position { line: 3, column: 5 });
    assert_eq!(tab.active_terminal, Some(PaneId::Terminal(1)));
    assert!(tab.signals.iter().any(|s| matches!(s, Signal::StartSelection(PaneId::Terminal(1), Position { line: 3, column: 5 }))));
    assert_eq!(tab.get_pane_id_at(&Position { line: 3, column: 50 }), Some(PaneId::Terminal(2)));
}

#[test]
fn page_scroll_uses_the_rows_less_one() {
    let mut tab = tab_with_one_pane(80, 24);
    tab.scroll_active_terminal_up_page();
    assert!(tab.signals.iter().any(|s| matches!(s, Signal::Scroll { id: PaneId::Terminal(1), up: true, lines: 23 })));
}

#[test]
fn cursor_position_is_offset_by_the_pane() {
    let mut tab = tab_with_one_pane(80, 24);
    tab.vertical_split(PaneId::Terminal(2));
    assert_eq!(tab.get_active_terminal_cursor_position(Some((3, 4))), Some((43, 4)));
    assert_eq!(tab.get_active_terminal_cursor_position(None), None);
}

#[test]
fn clipboard_sequence_encodes_the_selection() {
    assert_eq!(clipboard_sequence("hello"), "\u{1b}]52;c;aGVsbG8=\u{1b}\\");
    assert_eq!(frame_for_clipboard("QQ=="), "\u{1b}]52;c;QQ==\u{1b}\\");
    assert_eq!(clipboard_sequence(""), "\u{1b}]52;c;\u{1b}\\");
}

#[test]
fn whole_tab_resize_applies_to_viewport_and_display() {
    let mut tab = tab_with_one_pane(80, 24);
    tab.resize_whole_tab(-10, 2);
    assert_eq!(tab.viewport.cols, 70);
    assert_eq!(tab.viewport.rows, 26);
    assert_eq!(tab.display_area.cols, 70);
    assert!(tab.should_clear_display_before_rendering);
}

#[test]
fn frames_title_only_for_a_sole_pane() {
    let mut tab = tab_with_one_pane(80, 24);
    tab.set_pane_frames(true);
    assert_eq!(tab.panes[0].frame, tab_tiling::pane::Frame::TitleOnly);
    assert_eq!(tab.panes[0].get_content_rows(), 23);
    tab.set_pane_frames(false);
    assert_eq!(tab.panes[0].frame, tab_tiling::pane::Frame::Hidden);
}

#[test]
fn unnamed_tab_is_numbered_by_position() {
    let tab = Tab::new(0, 2, String::new(), &viewport(80, 24), None, None, false);
    assert_eq!(tab.name, "Tab #3");
    let named = Tab::new(0, 2, String::from("work"), &viewport(80, 24), None, None, false);
    assert_eq!(named.name, "work");
}

#[test]
fn output_for_a_pane_that_is_gone_is_dropped() {
    let mut tab = tab_with_one_pane(80, 24);
    let before = tab.signals.len();
    tab.handle_pty_bytes(5, vec![1, 2]);
    assert_eq!(tab.signals.len(), before);
    tab.handle_pty_bytes(1, vec![1, 2]);
    assert!(matches!(tab.signals.last(), Some(Signal::PtyBytes(1, b)) if b == &vec![1u8, 2]));
}

#[test]
fn closing_a_pane_boxed_in_by_fixed_neighbours_leaves_its_space() {
    // 1 | 2 | 3 in a row; 1 and 3 have fixed widths, so closing 2 gives its space to nobody.
    let mut tab = Tab::new(0, 0, String::new(), &viewport(60, 24), None, None, false);
    tab.apply_layout(vec![slot(0, 0, 24, 20), slot(20, 0, 24, 20), slot(40, 0, 24, 20)], vec![1, 2, 3]);
    tab.set_pane_fixed_width(PaneId::Terminal(1), 20);
    tab.set_pane_fixed_width(PaneId::Terminal(3), 20);
    tab.close_pane(PaneId::Terminal(2));
    assert_eq!(rect_of(&tab, PaneId::Terminal(1)), PositionAndSize { cols_fixed: true, ..PositionAndSize::new(0, 0, 24, 20) });
    assert_eq!(rect_of(&tab, PaneId::Terminal(3)), PositionAndSize { cols_fixed: true, ..PositionAndSize::new(40, 0, 24, 20) });
    assert_eq!(ids(&tab), vec![PaneId::Terminal(1), PaneId::Terminal(3)]);
}

#[test]
fn horizontal_split_then_close_restores_the_pane() {
    let mut tab = tab_with_one_pane(80, 25);
    tab.horizontal_split(PaneId::Terminal(2));
    assert_eq!(rect_of(&tab, PaneId::Terminal(1)).rows, 13);
    tab.close_pane(PaneId::Terminal(2));
    assert_eq!(rect_of(&tab, PaneId::Terminal(1)), PositionAndSize::new(0, 0, 25, 80));
}

#[test]
fn closing_the_active_pane_focuses_the_pane_that_grew() {
    let mut tab = tab_with_one_pane(80, 24);
    tab.vertical_split(PaneId::Terminal(2));
    tab.vertical_split(PaneId::Terminal(3));
    assert_eq!(tab.active_terminal, Some(PaneId::Terminal(3)));
    tab.close_pane(PaneId::Terminal(3));
    assert_eq!(tab.active_terminal, Some(PaneId::Terminal(2)));
    assert_eq!(rect_of(&tab, PaneId::Terminal(2)), PositionAndSize::new(40, 0, 24, 40));
}

#[test]
fn content_offset_measures_from_the_viewport_far_edges() {
    let vp = PositionAndSize::new(10, 2, 20, 70);
    assert_eq!(pane_content_offset(&PositionAndSize::new(10, 2, 10, 65), &vp), (1, 1));
    assert_eq!(pane_content_offset(&PositionAndSize::new(40, 12, 10, 40), &vp), (0, 0));
}

#[test]
fn fullscreen_leaves_unselectable_panes_visible() {
    let mut tab = Tab::new(0, 0, String::new(), &viewport(80, 24), None, None, false);
    tab.apply_layout(vec![slot(0, 0, 24, 40), slot(40, 0, 12, 40), slot(40, 12, 12, 40)], vec![1, 2, 3]);
    tab.set_pane_selectable(PaneId::Terminal(3), false);
    tab.toggle_active_pane_fullscreen();
    assert!(tab.fullscreen_is_active);
    assert_eq!(tab.panes_to_hide, vec![PaneId::Terminal(2)]);
}

#[test]
fn close_needs_an_exact_span_on_one_side() {
    // Left column split at rows 0/6/11; the closed pane spans rows 0-10 on the right, with a
    // fixed-height pane below it. No side matches the closed pane exactly and can grow.
    let mut tab = Tab::new(0, 0, String::new(), &viewport(40, 20), None, None, false);
    tab.apply_layout(
        vec![slot(0, 0, 6, 20), slot(0, 6, 5, 20), slot(0, 11, 9, 20), slot(20, 0, 10, 20), slot(20, 10, 10, 20)],
        vec![1, 2, 3, 4, 5],
    );
    tab.set_pane_fixed_height(PaneId::Terminal(5), 10);
    tab.close_pane(PaneId::Terminal(4));
    assert_eq!(rect_of(&tab, PaneId::Terminal(1)), PositionAndSize::new(0, 0, 6, 20));
    assert_eq!(rect_of(&tab, PaneId::Terminal(2)), PositionAndSize::new(0, 6, 5, 20));
    assert_eq!(rect_of(&tab, PaneId::Terminal(3)), PositionAndSize::new(0, 11, 9, 20));
    assert_eq!(rect_of(&tab, PaneId::Terminal(5)), PositionAndSize { rows_fixed: true, ..PositionAndSize::new(20, 10, 10, 20) });
}

#[test]
fn layout_gives_new_slots_their_identities_in_order() {
    let mut tab = Tab::new(0, 0, String::new(), &viewport(80, 24), None, Some(PaneId::Terminal(1)), false);
    let plugin = LayoutSlot { borderless: false, run: LayoutRun::Plugin(8), position_and_size: PositionAndSize::new(40, 0, 12, 40) };
    tab.apply_layout(vec![slot(0, 0, 24, 40), plugin, slot(40, 12, 12, 40)], vec![5, 6]);
    assert_eq!(rect_of(&tab, PaneId::Terminal(1)), PositionAndSize::new(0, 0, 24, 40));
    assert_eq!(rect_of(&tab, PaneId::Plugin(8)), PositionAndSize::new(40, 0, 12, 40));
    assert_eq!(rect_of(&tab, PaneId::Terminal(5)), PositionAndSize::new(40, 12, 12, 40));
    assert!(tab.signals.iter().any(|s| matches!(s, Signal::ClosePane(PaneId::Terminal(6)))));
    assert_eq!(tab.active_terminal, Some(PaneId::Terminal(1)));
}

#[test]
fn new_pane_turns_down_a_pane_that_can_only_split_its_fixed_width() {
    let mut tab = tab_with_one_pane(80, 12);
    tab.set_pane_fixed_width(PaneId::Terminal(1), 80);
    tab.new_pane(PaneId::Terminal(2));
    assert_eq!(ids(&tab), vec![PaneId::Terminal(1)]);
    assert!(matches!(tab.signals.last(), Some(Signal::ClosePane(PaneId::Terminal(2)))));
}

#[test]
fn split_asks_both_processes_to_resize() {
    let mut tab = tab_with_one_pane(80, 24);
    tab.signals.clear();
    tab.vertical_split(PaneId::Terminal(2));
    assert!(matches!(tab.signals[0], Signal::ResizeTerminal { pid: 1, cols: 39, rows: 24 }));
    assert!(matches!(tab.signals[1], Signal::ResizeTerminal { pid: 2, cols: 40, rows: 24 }));
    assert!(matches!(tab.signals[2], Signal::Render { .. }));
    assert_eq!(tab.signals.len(), 3);
}
