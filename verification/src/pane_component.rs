//! What a pane makes of events, and how it is drawn.

use vstd::prelude::*;
use crate::effect::{Act, Effect, PtyInput, PtyInputEvent, acts};
use crate::file_name_picker::file_picker_outcome;
use crate::geometry::Pos;
use crate::input::{Button, EventPropagation, InputEvent, MouseInput, MouseInputKind};
use crate::input_line::added_chars;
use crate::loader::FileKey;
use crate::pane::{Pane, PaneComponent, active_in, lemma_active_in_stack, scrollbar_outcome};
use crate::pane_manager::Window;
use crate::pane_mouse::{file_mouse, releases, selection_fits};
use crate::pane_select::terminal_mouse;
use crate::preview::{file_in, file_title, scrolled_to_range};
use crate::preview_text::title_range;
use crate::session_time::Nanos;
use crate::shell::optional_str;
use crate::state::{App, AppState, lemma_still_wf};
use crate::terminal_pane::{Outcome, passed_on, redraw};
use crate::theme_picker::theme_picker_outcome;

verus! {

/// Drags over lines or over text end where the pane shows another kind of window.
pub open spec fn drags_checked(p: Pane, app: App, active: Option<Window>) -> (Pane, App) {
    let in_file = active matches Some(Window::FilePreview(_));
    let in_text = in_file || (active matches Some(Window::Terminal(_)));
    let (p1, app1) = if p.preview_drag_active && !in_file {
        (
            Pane { preview_drag_active: false, preview: p.preview.drag_ended(), ..p },
            App { mouse_drag_active: false, ..app },
        )
    } else {
        (p, app)
    };
    if p1.text_drag_active && !in_text {
        (
            Pane { text_drag_active: false, last_click: None, consecutive_clicks: 0, ..p1 },
            App { text_selection: None, mouse_drag_active: false, ..app1 },
        )
    } else {
        (p1, app1)
    }
}

/// Whether a mouse event is for the scrollbar: in the last column, or anywhere in the pane while
/// the scrollbar is being dragged.
pub open spec fn on_scrollbar(p: Pane, pos: Pos) -> bool {
    let last = p.content_origin_col + if p.content_col_count > 0 {
        p.content_col_count - 1
    } else {
        0
    };
    let in_rows = p.content_origin_row <= pos.row_index < p.content_origin_row
        + p.content_row_count;
    let in_cols = p.content_origin_col <= pos.col_index < p.content_origin_col
        + p.content_col_count;
    &&& !p.preview_drag_active
    &&& !p.text_drag_active
    &&& p.content_row_count > 0
    &&& p.scrollbar_dragging || in_rows
    &&& pos.col_index == last || (p.scrollbar_dragging && in_cols)
}

/// The range that a click on the title bar of a file asks for.
pub open spec fn title_clicked(p: Pane, app: App, key: FileKey, mouse: MouseInput) -> Option<
    (usize, usize),
> {
    let title_row = if p.content_origin_row > 0 {
        p.content_origin_row - 1
    } else {
        0
    };
    let col = mouse.pos.col_index;
    if mouse.pos.row_index == title_row && p.content_origin_col <= col < p.content_origin_col
        + p.content_col_count && mouse.kind == MouseInputKind::MouseDown(Button::Left)
        && app.highlights.contains_key(key) {
        title_range(
            file_title(app.files[key.0 as int], app.root),
            app.highlights[key],
            col - p.content_origin_col,
            p.content_col_count as int,
        )
    } else {
        None
    }
}

/// What comes with an event from outside: what a key stands for to a terminal, what a mouse event
/// does, and the directories of the crate and of the repository that hold a file.
#[verifier::ext_equal]
pub struct Surroundings {
    pub key: Option<PtyInput>,
    pub mouse: Option<Seq<u8>>,
    pub crate_root: Option<Seq<char>>,
    pub repo_root: Option<Seq<char>>,
}

/// What a mouse event in the title bar or in the content of the pane does, or `None` where it is
/// for the window in the pane.
#[verifier::opaque]
pub open spec fn content_mouse(p: Pane, app: App, window: Window, mouse: MouseInput, now: Nanos) -> Option<
    (Pane, Outcome),
> {
    match window {
        Window::FilePreview(key) => match title_clicked(p, app, key, mouse) {
            Some((lo, hi)) => Some(
                (p, redraw(scrolled_to_range(app, key, lo, hi).dirty(now))),
            ),
            None => file_mouse(p, app, key, mouse, now),
        },
        Window::Terminal(id) => terminal_mouse(p, app, id, mouse),
        _ => None,
    }
}

/// What an event does that is for the window in the pane.
#[verifier::opaque]
pub open spec fn handed_on(
    p: Pane,
    app: App,
    active: Option<Window>,
    event: InputEvent,
    s: Surroundings,
    now: Nanos,
) -> (Pane, Outcome) {
    match active {
        Some(Window::FileNamePicker) => {
            let (cursor, o) = file_picker_outcome(app, p.file_cursor, event, now);
            (Pane { file_cursor: cursor, ..p }, o)
        },
        Some(Window::ThemePicker) => {
            let (cursor, o) = theme_picker_outcome(app, p.theme_cursor, event);
            (Pane { theme_cursor: cursor, ..p }, o)
        },
        Some(Window::FilePreview(_)) => {
            let (preview, o) = p.preview.outcome(app, event, s.crate_root, s.repo_root, now);
            (Pane { preview, ..p }, o)
        },
        Some(Window::Terminal(_)) => (p, p.terminal.outcome(app, event, s.key, s.mouse, now)),
        None => (p, passed_on(app)),
    }
}

impl Pane {
    /// What an event leads to in this pane.
    pub open spec fn outcome(self, app: App, event: InputEvent, s: Surroundings, now: Nanos) -> (
        Pane,
        Outcome,
    ) {
        let active = active_in(app, self.slot);
        let (p, a) = drags_checked(self, app, active);
        match event {
            InputEvent::Mouse(mouse) => match active {
                Some(window) => if on_scrollbar(p, mouse.pos) {
                    scrollbar_outcome(p, a, mouse, window, now)
                } else {
                    match content_mouse(p, a, window, mouse, now) {
                        Some(out) => out,
                        None => handed_on(p, a, active, event, s, now),
                    }
                },
                None => handed_on(p, a, active, event, s, now),
            },
            _ => handed_on(p, a, active, event, s, now),
        }
    }

    /// Whether the texts that can be edited in the pane have room for what an event adds.
    pub open spec fn has_room(self, app: App, event: InputEvent) -> bool {
        &&& self.preview.has_room(event)
        &&& app.file_name_picker.query.len() + added_chars(event) <= usize::MAX
        &&& app.theme_picker.query.len() + added_chars(event) <= usize::MAX
    }
}

/// Events that are for the window change neither the selection nor the files.
proof fn lemma_selection_kept(
    p: Pane,
    app: App,
    active: Option<Window>,
    event: InputEvent,
    s: Surroundings,
    now: Nanos,
)
    ensures
        handed_on(p, app, active, event, s, now).1.app.text_selection == app.text_selection,
        handed_on(p, app, active, event, s, now).1.app.files == app.files,
{
    reveal(handed_on);
}

impl PaneComponent {
    /// Ends drags where the pane shows another kind of window.
    fn check_drags(&mut self, state: &mut AppState, active: Option<Window>)
        requires
            old(state).wf(),
            old(self)@.wf(),
        ensures
            (final(self)@, final(state)@) == drags_checked(old(self)@, old(state)@, active),
            final(self)@.wf(),
            final(self).slot == old(self).slot,
            final(state).files == old(state).files,
            final(state).wf(),
            selection_fits(old(state)@) ==> selection_fits(final(state)@),
    {
        let ghost app = state@;
        let in_file = match active {
            Some(Window::FilePreview(_)) => true,
            _ => false,
        };
        let in_text = in_file || match active {
            Some(Window::Terminal(_)) => true,
            _ => false,
        };
        if self.preview_drag_active && !in_file {
            self.preview_drag_active = false;
            self.preview.end_drag();
            state.mouse_drag_active = false;
        }
        if self.text_drag_active && !in_text {
            self.text_drag_active = false;
            state.text_selection = None;
            state.mouse_drag_active = false;
            self.last_click = None;
            self.consecutive_clicks = 0;
        }
        proof {
            lemma_still_wf(app, state@);
        }
    }

    /// Whether a mouse event is for the scrollbar.
    fn is_on_scrollbar(&self, pos: Pos) -> (r: bool)
        ensures
            r == on_scrollbar(self@, pos),
    {
        let row: u32 = pos.row_index as u32;
        let col: u32 = pos.col_index as u32;
        let top: u32 = self.content_origin_row as u32;
        let left: u32 = self.content_origin_col as u32;
        let rows: u32 = self.content_row_count as u32;
        let cols: u32 = self.content_col_count as u32;
        let last: u32 = left + cols.saturating_sub(1);
        let in_rows = row >= top && row < top + rows;
        let in_cols = col >= left && col < left + cols;
        !self.preview_drag_active && !self.text_drag_active && rows > 0 && (
        self.scrollbar_dragging || in_rows) && (col == last || (self.scrollbar_dragging && in_cols))
    }

    /// The range that a click on the title bar of a file asks for.
    fn range_clicked(&self, state: &AppState, key: FileKey, mouse: &MouseInput) -> (r: Option<
        (usize, usize),
    >)
        requires
            state.wf(),
            self@.wf(),
            file_in(state@, self.id) == Some(key),
        ensures
            r == title_clicked(self@, state@, key, *mouse),
    {
        let title_row: u16 = self.content_origin_row.saturating_sub(1);
        let col: u32 = mouse.pos.col_index as u32;
        let left: u32 = self.content_origin_col as u32;
        let is_down = match mouse.kind {
            MouseInputKind::MouseDown(Button::Left) => true,
            _ => false,
        };
        if mouse.pos.row_index == title_row && col >= left && col < left
            + self.content_col_count as u32 && is_down {
            self.preview.range_at_title_col(
                state,
                (col - left) as usize,
                self.content_col_count as usize,
            )
        } else {
            None
        }
    }

    /// Handles an event that is for the window in the pane.
    fn hand_on(
        &mut self,
        state: &mut AppState,
        active: Option<Window>,
        event: &InputEvent,
        key: Option<PtyInputEvent>,
        mouse: Option<Vec<u8>>,
        crate_root: Option<&str>,
        repo_root: Option<&str>,
        now: Nanos,
        effects: &mut Vec<Effect>,
    ) -> (r: EventPropagation)
        requires
            old(state).wf(),
            old(self)@.wf(),
            old(self)@.has_room(old(state)@, *event),
        ensures
            ({
                let (pane, o) = handed_on(
                    old(self)@,
                    old(state)@,
                    active,
                    *event,
                    surroundings(key, mouse, crate_root, repo_root),
                    now,
                );
                &&& final(self)@ == pane
                &&& final(state)@ == o.app
                &&& r == o.flow
                &&& acts(final(effects)@) == acts(old(effects)@) + o.acts
            }),
            final(self)@.wf(),
            final(state).files == old(state).files,
            final(state).wf(),
            selection_fits(old(state)@) ==> selection_fits(final(state)@),
    {
        proof {
            lemma_selection_kept(
                self@,
                state@,
                active,
                *event,
                surroundings(key, mouse, crate_root, repo_root),
                now,
            );
        }
        reveal(handed_on);
        match active {
            Some(Window::FileNamePicker) => self.picker.handle_event(state, event, now, effects),
            Some(Window::ThemePicker) => self.theme_picker.handle_event(state, event, effects),
            Some(Window::FilePreview(_)) => self.preview.handle_event(
                state,
                event,
                crate_root,
                repo_root,
                now,
                effects,
            ),
            Some(Window::Terminal(_)) => self.terminal.handle_event(
                state,
                event,
                key,
                mouse,
                now,
                effects,
            ),
            None => {
                assert(acts(effects@) =~= acts(old(effects)@) + Seq::<Act>::empty());
                EventPropagation::Propagate
            },
        }
    }

    /// Handles a mouse event that is not for the scrollbar. Returns whether it was for the
    /// content of the pane.
    fn handle_content_mouse(
        &mut self,
        mouse: &MouseInput,
        state: &mut AppState,
        window: Window,
        now: Nanos,
        effects: &mut Vec<Effect>,
    ) -> (r: bool)
        requires
            old(state).wf(),
            old(self)@.wf(),
            window matches Window::FilePreview(key) ==> file_in(old(state)@, old(self).id) == Some(
                key,
            ) && key.0 < old(state).files@.len(),
            releases(*mouse) && old(self)@.text_drag_active ==> selection_fits(old(state)@),
        ensures
            match content_mouse(old(self)@, old(state)@, window, *mouse, now) {
                Some((pane, o)) => r && final(self)@ == pane && final(state)@ == o.app && acts(
                    final(effects)@,
                ) == acts(old(effects)@) + o.acts && o.flow == EventPropagation::ConsumedRender,
                None => !r && final(self)@ == old(self)@ && final(state)@ == old(state)@ && acts(
                    final(effects)@,
                ) == acts(old(effects)@),
            },
            final(self)@.wf(),
            final(state).files == old(state).files,
            final(state).wf(),
            selection_fits(old(state)@) ==> selection_fits(final(state)@),
    {
        reveal(content_mouse);
        match window {
            Window::FilePreview(key) => {
                match self.range_clicked(state, key, mouse) {
                    Some((lo, hi)) => {
                        self.preview.scroll_to_range(state, key, lo, hi);
                        state.mark_session_dirty(now);
                        assert(acts(effects@) =~= acts(old(effects)@) + Seq::<Act>::empty());
                        true
                    },
                    None => self.handle_file_mouse(mouse, state, key, now, effects),
                }
            },
            Window::Terminal(id) => self.handle_terminal_mouse(mouse, state, id, effects),
            _ => false,
        }
    }

    /// Handles an event. `key` is what a key stands for to a terminal, `mouse` what a mouse event
    /// does, and `crate_root` and `repo_root` are the directories of the crate and of the
    /// repository that hold the file that is shown.
    pub fn handle_event(
        &mut self,
        state: &mut AppState,
        event: &InputEvent,
        key: Option<PtyInputEvent>,
        mouse: Option<Vec<u8>>,
        crate_root: Option<&str>,
        repo_root: Option<&str>,
        now: Nanos,
        effects: &mut Vec<Effect>,
    ) -> (r: EventPropagation)
        requires
            old(state).wf(),
            old(self)@.wf(),
            old(self)@.has_room(old(state)@, *event),
            *event matches InputEvent::Mouse(mouse) ==> (releases(mouse) ==> selection_fits(
                old(state)@,
            )),
        ensures
            ({
                let (pane, o) = old(self)@.outcome(
                    old(state)@,
                    *event,
                    surroundings(key, mouse, crate_root, repo_root),
                    now,
                );
                &&& final(self)@ == pane
                &&& final(state)@ == o.app
                &&& r == o.flow
                &&& acts(final(effects)@) == acts(old(effects)@) + o.acts
            }),
            final(self)@.wf(),
            final(state).files == old(state).files,
            final(state).wf(),
            selection_fits(old(state)@) ==> selection_fits(final(state)@),
    {
        let ghost before = acts(effects@);
        let ghost app = state@;
        assert(before + Seq::<Act>::empty() =~= before);
        let active = self.active_window(state);
        proof {
            lemma_active_in_stack(app, self.slot);
        }
        self.check_drags(state, active);
        if let InputEvent::Mouse(m) = event {
            if let Some(window) = active {
                if self.is_on_scrollbar(m.pos) {
                    return self.handle_scrollbar(m, state, &window, now);
                }
                if self.handle_content_mouse(m, state, window, now, effects) {
                    return EventPropagation::ConsumedRender;
                }
            }
        }
        self.hand_on(state, active, event, key, mouse, crate_root, repo_root, now, effects)
    }
}

/// What comes with an event from outside.
pub open spec fn surroundings(
    key: Option<PtyInputEvent>,
    mouse: Option<Vec<u8>>,
    crate_root: Option<&str>,
    repo_root: Option<&str>,
) -> Surroundings {
    Surroundings {
        key: match key {
            Some(k) => Some(k@),
            None => None,
        },
        mouse: match mouse {
            Some(m) => Some(m@),
            None => None,
        },
        crate_root: optional_str(crate_root),
        repo_root: optional_str(repo_root),
    }
}

} // verus!
