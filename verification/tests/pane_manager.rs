use explorer::geometry::{FlexBox, Size};
use explorer::loader::FileKey;
use explorer::pane_manager::{MAX_PANES, PaneManager, PaneSize, ResizeDelta, Window, WindowState};

fn make_manager(stack: &[Window]) -> PaneManager {
    let mut manager = PaneManager::new();
    manager.window_stack = stack.to_vec();
    for window in stack {
        manager.window_states.insert(*window, WindowState::default());
    }
    if let Some(first) = manager.window_stack.first() {
        manager.focused_window = Some(*first);
    }
    manager
}

fn size(cols: u16, rows: u16) -> Size {
    Size { col_width: cols, row_height: rows }
}

fn set_pane_size(manager: &mut PaneManager, window: Window, pane_size: PaneSize) {
    manager.window_states.insert(window, WindowState { pane_size, ..WindowState::default() });
}

fn set_all_pane_sizes(manager: &mut PaneManager, pane_size: PaneSize) {
    for window in manager.window_stack.clone() {
        set_pane_size(manager, window, pane_size);
    }
}

fn row_height(b: &FlexBox) -> u16 {
    b.style_adjusted_bounds_size.row_height
}

fn col_index(b: &FlexBox) -> u16 {
    b.style_adjusted_origin_pos.col_index
}

#[test]
fn single_full_pane_uses_full_height() {
    let manager = make_manager(&[Window::FileNamePicker]);
    let slots = manager.layout(size(80, 24));
    assert_eq!(slots.len(), 1);
    assert_eq!(row_height(&slots[0].box_), 24);
}

#[test]
fn two_columns_for_wide_surface() {
    let manager = make_manager(&[Window::FileNamePicker, Window::ThemePicker]);
    let slots = manager.layout(size(240, 24));
    assert_eq!(slots.len(), 2);
    assert_eq!(col_index(&slots[0].box_), 0);
    assert_eq!(col_index(&slots[1].box_), 120);
}

#[test]
fn half_panes_stack_in_one_column() {
    let mut manager = make_manager(&[Window::FileNamePicker, Window::ThemePicker]);
    set_all_pane_sizes(&mut manager, PaneSize::Half);
    let slots = manager.layout(size(80, 24));
    assert_eq!(slots.len(), 2);
    assert_eq!(row_height(&slots[0].box_), 12);
    assert_eq!(row_height(&slots[1].box_), 12);
}

#[test]
fn last_full_pane_shrinks_to_fill_remaining_space() {
    let mut manager = make_manager(&[
        Window::FileNamePicker,
        Window::ThemePicker,
        Window::Terminal(0),
    ]);
    set_pane_size(&mut manager, Window::FileNamePicker, PaneSize::Full);
    set_pane_size(&mut manager, Window::ThemePicker, PaneSize::Half);
    set_pane_size(&mut manager, Window::Terminal(0), PaneSize::Full);
    let slots = manager.layout(size(200, 24));
    assert_eq!(slots.len(), 3);
    // First column: full height.
    assert_eq!(row_height(&slots[0].box_), 24);
    // Second column top: half height.
    assert_eq!(row_height(&slots[1].box_), 12);
    // Second column bottom: shrunk to remaining 12 rows.
    assert_eq!(row_height(&slots[2].box_), 12);
    assert_eq!(slots[2].box_.style_adjusted_origin_pos.row_index, 12);
}

#[test]
fn four_quarters_fill_column() {
    let mut manager = PaneManager::new();
    for i in 0..4 {
        manager.push_window(Window::Terminal(i));
        set_pane_size(&mut manager, Window::Terminal(i), PaneSize::Quarter);
    }
    let slots = manager.layout(size(80, 24));
    assert_eq!(slots.len(), 4);
    for slot in &slots {
        assert_eq!(row_height(&slot.box_), 6);
        assert_eq!(col_index(&slot.box_), 0);
    }
}

#[test]
fn quarter_and_half_leftover_absorbed_into_last_pane() {
    let mut manager = make_manager(&[Window::FileNamePicker, Window::ThemePicker]);
    set_pane_size(&mut manager, Window::FileNamePicker, PaneSize::Quarter);
    set_pane_size(&mut manager, Window::ThemePicker, PaneSize::Half);
    let slots = manager.layout(size(80, 24));
    assert_eq!(slots.len(), 2);
    assert_eq!(row_height(&slots[0].box_), 6);
    // 25% leftover (6 rows) absorbed into the last pane.
    assert_eq!(row_height(&slots[1].box_), 18);
}

#[test]
fn meaningful_leftover_stays_in_same_column() {
    let mut manager = make_manager(&[
        Window::FileNamePicker,
        Window::ThemePicker,
        Window::Terminal(0),
        Window::Terminal(1),
    ]);
    set_all_pane_sizes(&mut manager, PaneSize::Quarter);
    // 4 × 25% on a 2-column surface: all 4 panes fit in column 0 at
    // 3 rows each, leaving column 1 empty.
    let slots = manager.layout(size(200, 12));
    assert_eq!(slots.len(), 4);
    for slot in &slots {
        assert_eq!(row_height(&slot.box_), 3);
        assert_eq!(col_index(&slot.box_), 0);
    }
}

#[test]
fn leftover_always_absorbed_into_last_pane() {
    let mut manager = make_manager(&[
        Window::FileNamePicker,
        Window::ThemePicker,
        Window::Terminal(0),
    ]);
    set_pane_size(&mut manager, Window::FileNamePicker, PaneSize::Quarter);
    set_pane_size(&mut manager, Window::ThemePicker, PaneSize::Quarter);
    set_pane_size(&mut manager, Window::Terminal(0), PaneSize::Half);
    // 4% leftover (2 rows) on 47-row surface: absorbed into last pane.
    let slots = manager.layout(size(80, 47));
    assert_eq!(slots.len(), 3);
    assert_eq!(row_height(&slots[0].box_), 11);
    assert_eq!(row_height(&slots[1].box_), 11);
    assert_eq!(row_height(&slots[2].box_), 25);
}

#[test]
fn grow_and_shrink_clamp() {
    assert_eq!(PaneSize::Full.grow(), PaneSize::Full);
    assert_eq!(PaneSize::Quarter.shrink(), PaneSize::Quarter);
    assert_eq!(PaneSize::Quarter.grow(), PaneSize::Third);
    assert_eq!(PaneSize::Full.shrink(), PaneSize::Half);
}

#[test]
fn move_forward_and_backward() {
    let mut manager = make_manager(&[
        Window::FileNamePicker,
        Window::ThemePicker,
        Window::Terminal(0),
    ]);
    manager.move_backward(&Window::FileNamePicker);
    assert_eq!(
        manager.window_stack,
        vec![Window::ThemePicker, Window::FileNamePicker, Window::Terminal(0)]
    );
    manager.move_forward(&Window::FileNamePicker);
    assert_eq!(
        manager.window_stack,
        vec![Window::FileNamePicker, Window::ThemePicker, Window::Terminal(0)]
    );
}

#[test]
fn cycle_focus_forward_wraps() {
    let mut manager = make_manager(&[
        Window::FileNamePicker,
        Window::ThemePicker,
        Window::Terminal(0),
    ]);
    set_all_pane_sizes(&mut manager, PaneSize::Quarter);
    manager.focused_window = Some(Window::Terminal(0));
    let visible = manager.layout(size(80, 24));
    manager.cycle_focus(&visible, 1);
    assert_eq!(manager.focused_window, Some(Window::FileNamePicker));
}

#[test]
fn cycle_focus_backward_wraps() {
    let mut manager = make_manager(&[
        Window::FileNamePicker,
        Window::ThemePicker,
        Window::Terminal(0),
    ]);
    set_all_pane_sizes(&mut manager, PaneSize::Quarter);
    manager.focused_window = Some(Window::FileNamePicker);
    let visible = manager.layout(size(80, 24));
    manager.cycle_focus(&visible, -1);
    assert_eq!(manager.focused_window, Some(Window::Terminal(0)));
}

#[test]
fn cycle_focus_empty_visible_is_noop() {
    let mut manager = make_manager(&[Window::FileNamePicker]);
    manager.cycle_focus(&[], 1);
    assert_eq!(manager.focused_window, Some(Window::FileNamePicker));
}

#[test]
fn cycle_focus_wraps_to_second_when_focused_not_visible() {
    let mut manager = make_manager(&[
        Window::FileNamePicker,
        Window::ThemePicker,
        Window::Terminal(0),
    ]);
    set_all_pane_sizes(&mut manager, PaneSize::Quarter);
    manager.focused_window = Some(Window::Terminal(99));
    let visible = manager.layout(size(80, 24));
    manager.cycle_focus(&visible, 1);
    assert_eq!(manager.focused_window, Some(Window::ThemePicker));
}

#[test]
fn resize_focused_grows_and_shrinks() {
    let mut manager = make_manager(&[Window::FileNamePicker]);
    manager.focused_window = Some(Window::FileNamePicker);
    set_pane_size(&mut manager, Window::FileNamePicker, PaneSize::Half);
    manager.resize_focused(ResizeDelta::Shrink);
    manager.resize_focused(ResizeDelta::Shrink);
    assert_eq!(
        manager.window_states.get(&Window::FileNamePicker).unwrap().pane_size,
        PaneSize::Quarter
    );
    manager.resize_focused(ResizeDelta::Grow);
    manager.resize_focused(ResizeDelta::Grow);
    assert_eq!(
        manager.window_states.get(&Window::FileNamePicker).unwrap().pane_size,
        PaneSize::Half
    );
}

#[test]
fn resize_focused_noop_when_nothing_focused() {
    let mut manager = PaneManager::new();
    manager.resize_focused(ResizeDelta::Grow);
    assert!(manager.focused_window.is_none());
}

#[test]
fn push_window_moves_existing_to_front() {
    let mut manager = PaneManager::new();
    manager.push_window(Window::Terminal(0));
    manager.push_window(Window::Terminal(1));
    manager.push_window(Window::Terminal(2));
    manager.push_window(Window::Terminal(0));
    assert_eq!(
        manager.window_stack,
        vec![Window::Terminal(0), Window::Terminal(2), Window::Terminal(1)]
    );
}

#[test]
fn remove_window_deletes_state_and_updates_focus() {
    let mut manager = make_manager(&[
        Window::Terminal(0),
        Window::Terminal(1),
        Window::Terminal(2),
    ]);
    manager.focused_window = Some(Window::Terminal(1));
    set_pane_size(&mut manager, Window::Terminal(1), PaneSize::Half);
    manager.remove_window(&Window::Terminal(1));
    assert_eq!(manager.window_stack, vec![Window::Terminal(0), Window::Terminal(2)]);
    assert_eq!(manager.focused_window, Some(Window::Terminal(0)));
    assert!(!manager.window_states.contains_key(&Window::Terminal(1)));
}

#[test]
fn send_to_back_moves_window_to_end() {
    let mut manager = make_manager(&[
        Window::Terminal(0),
        Window::Terminal(1),
        Window::Terminal(2),
    ]);
    manager.send_to_back(&Window::Terminal(0));
    assert_eq!(
        manager.window_stack,
        vec![Window::Terminal(1), Window::Terminal(2), Window::Terminal(0)]
    );
}

#[test]
fn send_to_back_refocuses_next_pane() {
    let mut manager = PaneManager::new();
    manager.push_window(Window::Terminal(1));
    manager.push_window(Window::Terminal(2));
    manager.push_window(Window::FilePreview(FileKey::default()));
    // push_window places each new window at the front, so reverse to the
    // desired order before setting focus.
    manager.window_stack = vec![
        Window::Terminal(1),
        Window::Terminal(2),
        Window::FilePreview(FileKey::default()),
    ];
    manager.focused_window = Some(Window::Terminal(2));

    manager.send_to_back(&Window::Terminal(2));

    assert_eq!(
        manager.window_stack,
        vec![
            Window::Terminal(1),
            Window::FilePreview(FileKey::default()),
            Window::Terminal(2)
        ]
    );
    assert_eq!(manager.focused_window, Some(Window::FilePreview(FileKey::default())));
}

#[test]
fn layout_zero_surface_returns_empty() {
    let manager = make_manager(&[Window::FileNamePicker, Window::ThemePicker]);
    let slots = manager.layout(size(0, 0));
    assert!(slots.is_empty());
}

#[test]
fn layout_narrow_surface_uses_one_column() {
    let mut manager = make_manager(&[Window::FileNamePicker, Window::ThemePicker]);
    set_all_pane_sizes(&mut manager, PaneSize::Half);
    let slots = manager.layout(size(80, 24));
    assert_eq!(slots.len(), 2);
    for slot in &slots {
        assert_eq!(col_index(&slot.box_), 0);
    }
}

#[test]
fn layout_respects_max_panes() {
    let mut manager = PaneManager::new();
    for i in 0..20 {
        manager.push_window(Window::Terminal(i));
        set_pane_size(&mut manager, Window::Terminal(i), PaneSize::Quarter);
    }
    let slots = manager.layout(size(400, 64));
    assert_eq!(slots.len(), MAX_PANES);
}

#[test]
fn panes_cover_the_surface_without_overlap() {
    let mut manager = make_manager(&[
        Window::FileNamePicker,
        Window::ThemePicker,
        Window::Terminal(0),
        Window::Terminal(1),
        Window::Terminal(2),
    ]);
    set_pane_size(&mut manager, Window::ThemePicker, PaneSize::Third);
    set_pane_size(&mut manager, Window::Terminal(0), PaneSize::Half);
    let slots = manager.layout(size(243, 31));
    for x in 0..243 {
        for y in 0..31 {
            let covering = slots.iter().filter(|s| s.box_.covers_cell(x, y)).count();
            assert!(covering <= 1, "{x} {y}");
        }
    }
    for slot in &slots {
        assert!(!slot.box_.covers_cell(243, 0));
        assert!(!slot.box_.covers_cell(0, 31));
    }
}

#[test]
fn pane_sizes_ask_for_their_share_of_rows() {
    assert_eq!(PaneSize::Full.requested_rows(47), 47);
    assert_eq!(PaneSize::Half.requested_rows(47), 23);
    assert_eq!(PaneSize::Third.requested_rows(47), 15);
    assert_eq!(PaneSize::Quarter.requested_rows(47), 11);
    assert_eq!(PaneSize::Quarter.requested_rows(1), 1);
}

#[test]
fn scroll_is_clamped_to_what_there_is() {
    let mut manager = make_manager(&[Window::FileNamePicker]);
    let w = Window::FileNamePicker;
    manager.set_window_scroll(&w, 90);
    manager.set_window_scroll_max(&w, 100);
    manager.set_window_page_size(&w, 20);
    manager.clamp_scroll(&w);
    assert_eq!(manager.window_scroll(&w), 80);
    assert_eq!(manager.window_page_size(&w), 20);
    assert_eq!(manager.window_scroll_max(&w), 100);
    manager.set_window_scroll_max(&w, 10);
    manager.clamp_scroll(&w);
    assert_eq!(manager.window_scroll(&w), 0);
    assert_eq!(manager.window_scroll(&Window::Terminal(9)), 0);
}

#[test]
fn focused_slot_is_its_place_in_the_stack() {
    let mut manager = make_manager(&[Window::Terminal(0), Window::Terminal(1)]);
    manager.focused_window = Some(Window::Terminal(1));
    assert_eq!(manager.focused_slot(), Some(1));
    manager.focused_window = Some(Window::ThemePicker);
    assert_eq!(manager.focused_slot(), None);
}
