//! A pane: the components for what it can show, and its scrollbar.

use vstd::prelude::*;
use crate::effect::{Act, acts};
use crate::file_name_picker::FileNamePickerComponent;
use crate::geometry::Pos;
use crate::ids::{FlexBoxId, slot_of};
use crate::input::{Button, EventPropagation, KeyState, MouseInput, MouseInputKind};
use crate::layout::law_layout_shows_front_of_stack;
use crate::pane_manager::Window;
use crate::preview::{DragModifier, FilePreviewComponent, Preview};
use crate::screen::lesser;
use crate::scrollbar::{
    ScrollState, is_on_thumb, scroll_at, scroll_dragged, scroll_from_drag, scroll_from_y, thumb_len,
    thumb_start,
};
use crate::session_time::Nanos;
use crate::state::{App, AppState, Term};
use crate::terminal_pane::{Outcome, TerminalPaneComponent, passed_on, redraw, scrolled};
use crate::text::copy_of;
use crate::theme_picker::{ThemePickerComponent, theme_shown};

verus! {

/// A pane: it holds a component for each kind of window, and hands events on to the one for the
/// window that the layout shows in its slot.
pub struct PaneComponent {
    pub id: FlexBoxId,
    pub slot: usize,
    pub picker: FileNamePickerComponent,
    pub theme_picker: ThemePickerComponent,
    pub preview: FilePreviewComponent,
    pub terminal: TerminalPaneComponent,
    /// Where the content was drawn last, below the title bar.
    pub content_origin_row: u16,
    pub content_origin_col: u16,
    /// How many columns the content has, with that of the scrollbar.
    pub content_col_count: u16,
    pub content_row_count: u16,
    /// Whether the scrollbar is being dragged.
    pub scrollbar_dragging: bool,
    /// The scroll offset and the row at which the thumb was grabbed, or `None` where the drag
    /// started on the track.
    pub scrollbar_grab_state: Option<(usize, usize)>,
    pub preview_drag_active: bool,
    pub text_drag_active: bool,
    pub last_click: Option<(Nanos, Pos)>,
    pub consecutive_clicks: u8,
}

/// What a [`PaneComponent`] stands for.
#[verifier::ext_equal]
pub struct Pane {
    pub id: FlexBoxId,
    pub slot: usize,
    pub file_cursor: int,
    pub file_scroll: usize,
    pub theme_cursor: int,
    pub theme_scroll: usize,
    pub preview: Preview,
    pub terminal: TerminalPaneComponent,
    pub content_origin_row: u16,
    pub content_origin_col: u16,
    pub content_col_count: u16,
    pub content_row_count: u16,
    pub scrollbar_dragging: bool,
    pub scrollbar_grab_state: Option<(usize, usize)>,
    pub preview_drag_active: bool,
    pub text_drag_active: bool,
    pub last_click: Option<(Nanos, Pos)>,
    pub consecutive_clicks: u8,
}

impl View for PaneComponent {
    type V = Pane;

    open spec fn view(&self) -> Pane {
        Pane {
            id: self.id,
            slot: self.slot,
            file_cursor: self.picker.input_line.cursor() as int,
            file_scroll: self.picker.picker.scroll_offset,
            theme_cursor: self.theme_picker.input_line.cursor() as int,
            theme_scroll: self.theme_picker.picker.scroll_offset,
            preview: self.preview@,
            terminal: self.terminal,
            content_origin_row: self.content_origin_row,
            content_origin_col: self.content_origin_col,
            content_col_count: self.content_col_count,
            content_row_count: self.content_row_count,
            scrollbar_dragging: self.scrollbar_dragging,
            scrollbar_grab_state: self.scrollbar_grab_state,
            preview_drag_active: self.preview_drag_active,
            text_drag_active: self.text_drag_active,
            last_click: self.last_click,
            consecutive_clicks: self.consecutive_clicks,
        }
    }
}

impl Pane {
    /// The id is that of the slot, the components are those of the pane, text is selected by the
    /// pane and not by its preview, and the thumb was grabbed at a row of the screen.
    pub open spec fn wf(self) -> bool {
        &&& slot_of(self.id) == Some(self.slot as int)
        &&& self.preview.id == self.id
        &&& self.preview.wf()
        &&& !self.preview.text_drag_active
        &&& self.terminal.id == self.id
        &&& self.terminal.slot == self.slot
        &&& self.scrollbar_grab_state matches Some((_, y)) ==> y <= u16::MAX
    }

    /// A pane for a slot, not drawn yet.
    pub open spec fn fresh(slot: usize, id: FlexBoxId) -> Pane {
        Pane {
            id,
            slot,
            file_cursor: 0,
            file_scroll: 0,
            theme_cursor: 0,
            theme_scroll: 0,
            preview: Preview {
                id,
                command: None,
                cursor: 0,
                error: None,
                drag_snapshot: None,
                drag_start_line: None,
                drag_modifier: None,
                text_drag_active: false,
                text_drag_start: None,
                text_drag_end: None,
                content_origin_row: 0,
                content_origin_col: 0,
                content_col_count: 0,
                content_row_count: 0,
            },
            terminal: TerminalPaneComponent {
                id,
                slot,
                content_origin_row: 0,
                content_origin_col: 0,
                content_col_count: 0,
                content_row_count: 0,
            },
            content_origin_row: 0,
            content_origin_col: 0,
            content_col_count: 0,
            content_row_count: 0,
            scrollbar_dragging: false,
            scrollbar_grab_state: None,
            preview_drag_active: false,
            text_drag_active: false,
            last_click: None,
            consecutive_clicks: 0,
        }
    }
}

/// The window that the layout shows in a slot.
pub open spec fn active_in(app: App, slot: usize) -> Option<Window> {
    let visible = app.panes.layout(app.last_surface_size);
    if slot < visible.len() {
        Some(visible[slot as int].window)
    } else {
        None
    }
}

/// The window that is shown in a slot is that of the stack.
pub proof fn lemma_active_in_stack(app: App, slot: usize)
    ensures
        active_in(app, slot) matches Some(window) ==> slot < app.panes.stack.len()
            && app.panes.stack[slot as int] == window,
{
    law_layout_shows_front_of_stack(app.panes, app.last_surface_size);
}

/// What the scrollbar of a terminal shows: nothing on the alternate screen.
pub open spec fn terminal_scroll(t: Term) -> Option<ScrollState> {
    if t.screen.alternate {
        None
    } else {
        let history = t.screen.scrollback.len() as int;
        let height = t.screen.size.row_height as int;
        Some(
            ScrollState {
                scroll: (history - lesser(t.scroll_offset as int, history)) as usize,
                scroll_max: (history + height) as usize,
                page_size: height as usize,
            },
        )
    }
}

/// What the scrollbar of a window other than a terminal shows.
pub open spec fn list_scroll(app: App, window: Window) -> ScrollState {
    let s = app.panes.state_of(window);
    ScrollState { scroll: s.scroll, scroll_max: s.scroll_max, page_size: s.page_size }
}

/// What the scrollbar of a window shows, where it has one.
pub open spec fn window_scroll_state(app: App, window: Window) -> Option<ScrollState> {
    match window {
        Window::Terminal(id) => if app.terminals.contains_key(id) {
            terminal_scroll(app.terminals[id])
        } else {
            None
        },
        _ => Some(list_scroll(app, window)),
    }
}

/// What the scrollbar of a window answers to: a terminal without a history has nothing to scroll.
pub open spec fn scrollable_state(app: App, window: Window) -> Option<ScrollState> {
    match window {
        Window::Terminal(id) => if app.terminals.contains_key(id)
            && app.terminals[id].screen.scrollback.len() == 0 {
            None
        } else {
            window_scroll_state(app, window)
        },
        _ => window_scroll_state(app, window),
    }
}

/// The entry of a list that the scrollbar selects.
pub open spec fn entry_at(scroll_max: usize, target: int) -> int {
    lesser(target, scroll_max - 1)
}

/// A window is scrolled by its scrollbar. A file is scrolled, and a terminal lets go of the
/// keyboard; in a picker another entry is selected, and a theme is shown.
#[verifier::opaque]
pub open spec fn scroll_applied(app: App, window: Window, target: usize, now: Nanos) -> App {
    let max = app.panes.state_of(window).scroll_max;
    let i = entry_at(max, target as int);
    match window {
        Window::FilePreview(_) => App {
            panes: app.panes.scrolled(window, target),
            ..app
        }.dirty(now),
        Window::FileNamePicker => if max > 0 && i < app.file_name_picker.results.len() {
            App { file_name_picker: app.file_name_picker.with_selected(i), ..app }
        } else {
            app
        },
        Window::ThemePicker => if max > 0 && i < app.theme_picker.results.len() {
            theme_shown(
                App { theme_picker: app.theme_picker.with_selected(i), ..app },
                app.theme_picker.results[i].0,
            )
        } else {
            app
        },
        Window::Terminal(id) => if app.terminals.contains_key(id) {
            let history = app.terminals[id].screen.scrollback.len() as int;
            App {
                terminal_grabbed: false,
                ..scrolled(app, id, history - lesser(target as int, history))
            }
        } else {
            app
        },
    }
}

/// The row of an event, counted from where content starts.
pub open spec fn row_below(row: u16, origin_row: u16) -> int {
    if row > origin_row {
        row - origin_row
    } else {
        0
    }
}

/// What a mouse event on the scrollbar of a window does.
#[verifier::opaque]
pub open spec fn scrollbar_outcome(
    p: Pane,
    app: App,
    mouse: MouseInput,
    window: Window,
    now: Nanos,
) -> (Pane, Outcome) {
    let y = row_below(mouse.pos.row_index, p.content_origin_row);
    let height = p.content_row_count as int;
    match scrollable_state(app, window) {
        None => (p, passed_on(app)),
        Some(s) => {
            let scrollable = s.scroll_max > s.page_size && height > 0;
            match mouse.kind {
                MouseInputKind::MouseDown(Button::Left) => if !scrollable {
                    (p, redraw(app))
                } else if thumb_start(height, s) <= y < thumb_start(height, s) + thumb_len(
                    height,
                    s,
                ) {
                    (
                        Pane {
                            scrollbar_dragging: true,
                            scrollbar_grab_state: Some((s.scroll, y as usize)),
                            ..p
                        },
                        redraw(app),
                    )
                } else {
                    (
                        Pane { scrollbar_dragging: true, scrollbar_grab_state: None, ..p },
                        redraw(
                            scroll_applied(app, window, scroll_at(y, height, s) as usize, now),
                        ),
                    )
                },
                MouseInputKind::MouseDrag(Button::Left) => if p.scrollbar_dragging && scrollable {
                    let target = match p.scrollbar_grab_state {
                        Some((grab_scroll, grab_y)) => scroll_dragged(
                            grab_scroll as int,
                            grab_y as int,
                            y,
                            height,
                            s,
                        ),
                        None => scroll_at(y, height, s),
                    };
                    (p, redraw(scroll_applied(app, window, target as usize, now)))
                } else {
                    (p, redraw(app))
                },
                MouseInputKind::MouseUp(Button::Left) => (
                    Pane { scrollbar_dragging: false, scrollbar_grab_state: None, ..p },
                    redraw(app),
                ),
                MouseInputKind::ScrollUp => (
                    p,
                    redraw(
                        scroll_applied(
                            app,
                            window,
                            (if s.scroll > 3 {
                                s.scroll - 3
                            } else {
                                0
                            }) as usize,
                            now,
                        ),
                    ),
                ),
                MouseInputKind::ScrollDown => (
                    p,
                    redraw(
                        scroll_applied(
                            app,
                            window,
                            lesser(s.scroll + 3, usize::MAX as int) as usize,
                            now,
                        ),
                    ),
                ),
                _ => (p, redraw(app)),
            }
        },
    }
}

/// What a drag over lines does, by the modifier keys: none where the alt key is held.
pub open spec fn drag_modifier(mouse: MouseInput) -> Option<DragModifier> {
    match mouse.maybe_modifier_keys {
        None => None,
        Some(mask) => {
            let shift = mask.shift_key_state == KeyState::Pressed;
            let ctrl = mask.ctrl_key_state == KeyState::Pressed;
            if mask.alt_key_state == KeyState::Pressed || shift == ctrl {
                None
            } else if shift {
                Some(DragModifier::Shift)
            } else {
                Some(DragModifier::Ctrl)
            }
        },
    }
}

/// What a drag over lines does, by the modifier keys.
pub fn drag_modifier_from_mouse(mouse: &MouseInput) -> (r: Option<DragModifier>)
    ensures
        r == drag_modifier(*mouse),
{
    match mouse.maybe_modifier_keys {
        None => None,
        Some(mask) => {
            let shift = mask.shift_key_state == KeyState::Pressed;
            let ctrl = mask.ctrl_key_state == KeyState::Pressed;
            if mask.alt_key_state == KeyState::Pressed {
                None
            } else if shift && !ctrl {
                Some(DragModifier::Shift)
            } else if ctrl && !shift {
                Some(DragModifier::Ctrl)
            } else {
                None
            }
        },
    }
}

/// What the scrollbar of a terminal shows.
fn terminal_bar(state: &AppState, id: usize) -> (r: Option<ScrollState>)
    requires
        state.wf(),
    ensures
        r == window_scroll_state(state@, Window::Terminal(id)),
{
    match state.terminal_panes.get(&id) {
        Some(pane) => {
            assert(state@.terminals[id] == pane@);
            assert(pane@.screen.wf());
            if pane.screen.alternate {
                None
            } else {
                let history: usize = pane.screen.scrollback.len();
                assert(pane@.screen.scrollback.len() == history);
                let height: usize = pane.screen.size.row_height as usize;
                let back: usize = if pane.scroll_offset < history {
                    pane.scroll_offset
                } else {
                    history
                };
                Some(
                    ScrollState {
                        scroll: history - back,
                        scroll_max: history + height,
                        page_size: height,
                    },
                )
            }
        },
        None => None,
    }
}

/// What the scrollbar of a window shows, where it has one.
pub fn scroll_state_of(state: &AppState, window: &Window) -> (r: Option<ScrollState>)
    requires
        state.wf(),
    ensures
        r == window_scroll_state(state@, *window),
{
    match window {
        Window::Terminal(id) => terminal_bar(state, *id),
        _ => {
            let s = state.pane_manager.window_state(window);
            Some(
                ScrollState { scroll: s.scroll, scroll_max: s.scroll_max, page_size: s.page_size },
            )
        },
    }
}

/// What the scrollbar of a window answers to.
fn scrollable_state_of(state: &AppState, window: &Window) -> (r: Option<ScrollState>)
    requires
        state.wf(),
    ensures
        r == scrollable_state(state@, *window),
{
    if let Window::Terminal(id) = window {
        if let Some(pane) = state.terminal_panes.get(id) {
            assert(pane@.screen.scrollback.len() == pane.screen.scrollback@.len());
            if pane.screen.scrollback.len() == 0 {
                return None;
            }
        }
    }
    scroll_state_of(state, window)
}

impl PaneComponent {
    /// A pane for a slot, not drawn yet.
    pub fn new(slot: usize, id: FlexBoxId) -> (r: Self)
        ensures
            r@ == Pane::fresh(slot, id),
            r.picker.id == id,
            r.theme_picker.id == id,
    {
        PaneComponent {
            id,
            slot,
            picker: FileNamePickerComponent::new(id),
            theme_picker: ThemePickerComponent::new(id),
            preview: FilePreviewComponent::new(id),
            terminal: TerminalPaneComponent::new(id, slot),
            content_origin_row: 0,
            content_origin_col: 0,
            content_col_count: 0,
            content_row_count: 0,
            scrollbar_dragging: false,
            scrollbar_grab_state: None,
            preview_drag_active: false,
            text_drag_active: false,
            last_click: None,
            consecutive_clicks: 0,
        }
    }

    /// Leaves the command line of the preview, and ends every drag.
    pub fn reset(&mut self)
        ensures
            final(self)@ == (Pane {
                preview: Preview {
                    command: None,
                    ..old(self)@.preview.drag_ended().text_drag_ended()
                },
                preview_drag_active: false,
                text_drag_active: false,
                last_click: None,
                consecutive_clicks: 0,
                ..old(self)@
            }),
    {
        self.preview.reset();
        self.preview_drag_active = false;
        self.text_drag_active = false;
        self.last_click = None;
        self.consecutive_clicks = 0;
    }

    /// The id of this pane.
    pub fn get_id(&self) -> (r: FlexBoxId)
        ensures
            r == self@.id,
    {
        self.id
    }

    /// The window that the layout shows in this pane.
    pub fn active_window(&self, state: &AppState) -> (r: Option<Window>)
        ensures
            r == active_in(state@, self.slot),
    {
        let visible = state.pane_manager.layout(state.last_surface_size);
        if self.slot < visible.len() {
            Some(visible[self.slot].window)
        } else {
            None
        }
    }

    /// Scrolls a window by its scrollbar.
    pub fn apply_scroll(state: &mut AppState, window: &Window, target: usize, now: Nanos)
        requires
            old(state).wf(),
        ensures
            final(state)@ == scroll_applied(old(state)@, *window, target, now),
            final(state)@.text_selection == old(state)@.text_selection,
            final(state).files == old(state).files,
            final(state).wf(),
    {
        reveal(scroll_applied);
        let ghost app = state@;
        let max: usize = state.pane_manager.window_scroll_max(window);
        match window {
            Window::FilePreview(_) => {
                state.scroll_window(window, target);
                state.mark_session_dirty(now);
            },
            Window::FileNamePicker => {
                assert(app.file_name_picker.results.len() == state.file_name_picker.results@.len());
                if max > 0 {
                    let i: usize = if target < max - 1 {
                        target
                    } else {
                        max - 1
                    };
                    if i < state.file_name_picker.results.len() {
                        state.file_name_picker.select(i);
                    }
                }
            },
            Window::ThemePicker => {
                assert(app.theme_picker.results.len() == state.theme_picker.results@.len());
                if max > 0 {
                    let i: usize = if target < max - 1 {
                        target
                    } else {
                        max - 1
                    };
                    if i < state.theme_picker.results.len() {
                        let name = copy_of(state.theme_picker.results[i].0.as_str());
                        assert(app.theme_picker.results[i as int].0 == name@);
                        state.theme_picker.select(i);
                        state.show_theme(name.as_str());
                    }
                }
            },
            Window::Terminal(id) => {
                let history: Option<usize> = match state.terminal_panes.get(id) {
                    Some(pane) => {
                        assert(state@.terminals[*id] == pane@);
                        assert(pane@.screen.scrollback.len() == pane.screen.scrollback@.len());
                        Some(pane.screen.scrollback.len())
                    },
                    None => None,
                };
                if let Some(history) = history {
                    let forward: usize = if target < history {
                        target
                    } else {
                        history
                    };
                    state.set_scroll_offset(*id, history - forward);
                    state.terminal_grabbed = false;
                }
            },
        }
    }

    /// Handles a mouse event on the scrollbar of a window.
    pub fn handle_scrollbar(
        &mut self,
        mouse: &MouseInput,
        state: &mut AppState,
        window: &Window,
        now: Nanos,
    ) -> (r: EventPropagation)
        requires
            old(state).wf(),
            old(self)@.wf(),
        ensures
            ({
                let (pane, o) = scrollbar_outcome(old(self)@, old(state)@, *mouse, *window, now);
                &&& final(self)@ == pane
                &&& final(state)@ == o.app
                &&& r == o.flow
                &&& o.acts == Seq::<Act>::empty()
            }),
            final(state)@.text_selection == old(state)@.text_selection,
            final(self)@.wf(),
            final(state).files == old(state).files,
            final(state).wf(),
    {
        reveal(scrollbar_outcome);
        let y: usize = mouse.pos.row_index.saturating_sub(self.content_origin_row) as usize;
        let s: ScrollState = match scrollable_state_of(state, window) {
            Some(s) => s,
            None => {
                return EventPropagation::Propagate;
            },
        };
        let height: usize = self.content_row_count as usize;
        let scrollable = s.scroll_max > s.page_size && height > 0;
        match mouse.kind {
            MouseInputKind::MouseDown(Button::Left) => {
                if scrollable {
                    self.scrollbar_dragging = true;
                    if is_on_thumb(y, height, s) {
                        self.scrollbar_grab_state = Some((s.scroll, y));
                    } else {
                        self.scrollbar_grab_state = None;
                        Self::apply_scroll(state, window, scroll_from_y(y, height, s), now);
                    }
                }
            },
            MouseInputKind::MouseDrag(Button::Left) => {
                if self.scrollbar_dragging && scrollable {
                    let target: usize = match self.scrollbar_grab_state {
                        Some((grab_scroll, grab_y)) => scroll_from_drag(
                            grab_scroll,
                            grab_y,
                            y,
                            height,
                            s,
                        ),
                        None => scroll_from_y(y, height, s),
                    };
                    Self::apply_scroll(state, window, target, now);
                }
            },
            MouseInputKind::MouseUp(Button::Left) => {
                self.scrollbar_dragging = false;
                self.scrollbar_grab_state = None;
            },
            MouseInputKind::ScrollUp => {
                Self::apply_scroll(state, window, s.scroll.saturating_sub(3), now);
            },
            MouseInputKind::ScrollDown => {
                Self::apply_scroll(state, window, s.scroll.saturating_add(3), now);
            },
            _ => {},
        }
        EventPropagation::ConsumedRender
    }
}

} // verus!
