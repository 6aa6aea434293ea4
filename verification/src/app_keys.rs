//! What the keys of the program and the mouse do before a pane sees them.

use vstd::prelude::*;
use crate::app_terminal::terminal_removed;
use crate::effect::{Act, Effect, acts};
use crate::file_name_picker::{
    FileNamePickerComponent, focused_in_front, is_scrolled_back, open_results,
};
use crate::fuzzy_picker::{Picker, result_ids};
use crate::geometry::{Pos, Size};
use crate::input::{
    EventPropagation, InputEvent, Key, KeyPress, KeyState, MouseInputKind, SpecialKey,
};
use crate::keymap::{Action, Bindings, Keymap, bound_action};
use crate::pane_manager::{
    PaneSlot, Panes, ResizeDelta, Window, law_reordering_keeps_panes_valid,
};
use crate::session_time::Nanos;
use crate::state::{App, AppState, lemma_still_wf};
use crate::terminal_pane::{Outcome, redraw};
use crate::text::copy_of;
use crate::theme::HelixTheme;
use crate::theme_picker::theme_name_list;

verus! {

/// The part of a window of the given size that panes are drawn in: all but the status bar.
pub open spec fn surface_of(window: Size) -> Size {
    Size {
        row_height: (if window.row_height > 0 {
            window.row_height - 1
        } else {
            0
        }) as u16,
        ..window
    }
}

/// The part of a window that panes are drawn in.
pub fn surface_size(window_size: Size) -> (r: Size)
    ensures
        r == surface_of(window_size),
{
    Size {
        col_width: window_size.col_width,
        row_height: window_size.row_height.saturating_sub(1),
    }
}

/// Whether an event is the leader key.
pub open spec fn is_leader(keymap: Bindings, event: InputEvent) -> bool {
    event matches InputEvent::Keyboard(press) && press == keymap.leader_key
}

/// Whether an event is the leader key.
pub fn leader_pressed(keymap: &Keymap, event: &InputEvent) -> (r: bool)
    ensures
        r == is_leader(keymap@, *event),
{
    match event {
        InputEvent::Keyboard(press) => *press == keymap.leader_key,
        _ => false,
    }
}

/// Whether a terminal has the focus.
pub open spec fn terminal_focused(app: App) -> bool {
    app.panes.focused matches Some(Window::Terminal(_))
}

/// The focus goes to another of the visible panes.
pub open spec fn focus_cycled_by(app: App, direction: int) -> Outcome {
    let next = App {
        panes: app.panes.focus_cycled(app.panes.layout(app.last_surface_size), direction),
        ..app
    };
    Outcome {
        app: next.grab_synced(),
        flow: EventPropagation::ConsumedRender,
        acts: next.focus_acts(app.panes.focused, next.panes.focused),
    }
}

/// A window is opened in front, with the focus, and terminals are told.
pub open spec fn opened_in_front(app: App, window: Window) -> (App, Seq<Act>) {
    (
        App { panes: focused_in_front(app.panes, window), ..app },
        app.focus_acts(app.panes.focused, Some(window)),
    )
}

/// The picker for files is opened, with the open windows listed.
pub open spec fn file_picker_opened(app: App) -> Outcome {
    let (next, acts) = opened_in_front(app, Window::FileNamePicker);
    Outcome {
        app: App {
            file_name_picker: Picker {
                query: Seq::empty(),
                results: open_results(next.files, next.panes.stack),
                selected: None,
            },
            ..next
        },
        flow: EventPropagation::ConsumedRender,
        acts,
    }
}

/// All themes, as results without matching places, with the current one selected.
pub open spec fn all_themes_listed(name: Seq<char>) -> Picker<Seq<char>> {
    let names = theme_name_list();
    Picker {
        query: Seq::empty(),
        results: Seq::new(names.len(), |i: int| (names[i], Seq::empty())),
        selected: if names.contains(name) {
            Some(name)
        } else {
            None
        },
    }
}

/// The picker for themes is opened, with all themes listed. The theme that is shown is the one to
/// come back to, unless the picker is open already.
pub open spec fn theme_picker_opened(app: App) -> Outcome {
    let (next, acts) = opened_in_front(app, Window::ThemePicker);
    Outcome {
        app: App {
            saved_theme: if app.panes.stack.contains(Window::ThemePicker) {
                app.saved_theme
            } else {
                app.theme
            },
            theme_picker: all_themes_listed(app.theme.name),
            ..next
        },
        flow: EventPropagation::ConsumedRender,
        acts,
    }
}

/// The focused pane is resized.
pub open spec fn focus_resized(app: App, delta: ResizeDelta, now: Nanos) -> Outcome {
    redraw(App { panes: app.panes.resized(delta), ..app }.dirty(now))
}

/// The focused pane changes places with its neighbour.
pub open spec fn focus_moved(app: App, forward: bool, now: Nanos) -> Outcome {
    match app.panes.focused {
        None => redraw(app),
        Some(window) => redraw(
            App {
                panes: if forward {
                    app.panes.moved_forward(window)
                } else {
                    app.panes.moved_backward(window)
                },
                ..app
            }.dirty(now),
        ),
    }
}

/// The focused terminal is closed.
pub open spec fn focused_terminal_closed(app: App, now: Nanos) -> Outcome {
    match app.panes.focused {
        Some(Window::Terminal(id)) => {
            let (next, acts) = terminal_removed(app, id, now);
            Outcome { app: next, flow: EventPropagation::ConsumedRender, acts }
        },
        _ => redraw(app),
    }
}

/// What the keys of the program can ask for.
#[derive(Clone, Copy, Debug, PartialEq, Eq, Structural)]
pub enum Command {
    GrabTerminal,
    OpenFilePicker,
    OpenTerminal,
    OpenThemePicker,
    Quit,
    Grow,
    Shrink,
    MoveForward,
    MoveBackward,
    FocusNext,
    FocusPrev,
    CloseTerminal,
    Cancel,
}

/// What an action asks for.
pub open spec fn command_of(action: Action) -> Command {
    match action {
        Action::Quit => Command::Quit,
        Action::FocusNext => Command::FocusNext,
        Action::FocusPrev => Command::FocusPrev,
        Action::OpenFilePicker => Command::OpenFilePicker,
        Action::OpenTerminal => Command::OpenTerminal,
        Action::OpenThemePicker => Command::OpenThemePicker,
        Action::ClosePane => Command::CloseTerminal,
        Action::GrabTerminal => Command::GrabTerminal,
        Action::DismissLeader => Command::Cancel,
        Action::ResizeGrow => Command::Grow,
        Action::ResizeShrink => Command::Shrink,
        Action::MovePaneForward => Command::MoveForward,
        Action::MovePaneBackward => Command::MoveBackward,
    }
}

/// What a key that is bound to nothing asks for behind the leader key.
pub open spec fn own_leader_command(press: KeyPress) -> Option<Command> {
    match press {
        KeyPress::Plain { key } => match key {
            Key::Character('=') => Some(Command::Grow),
            Key::Character('-') => Some(Command::Shrink),
            Key::SpecialKey(SpecialKey::Up) => Some(Command::MoveForward),
            Key::SpecialKey(SpecialKey::Down) => Some(Command::MoveBackward),
            _ => None,
        },
        _ => None,
    }
}

/// What a key asks for behind the leader key. The leader key itself gives a terminal the keyboard.
pub open spec fn leader_command(app: App, event: InputEvent) -> Option<Command> {
    match event {
        InputEvent::Keyboard(press) => if press == app.keymap.leader_key {
            if terminal_focused(app) {
                Some(Command::GrabTerminal)
            } else {
                own_leader_command(press)
            }
        } else {
            match bound_action(app.keymap.leader, press, 0) {
                Some(action) => Some(command_of(action)),
                None => own_leader_command(press),
            }
        },
        _ => None,
    }
}

/// What a key that is bound to nothing asks for anywhere.
pub open spec fn own_global_command(press: KeyPress) -> Option<Command> {
    match press {
        KeyPress::WithModifiers { key, mask } => if mask.ctrl_key_state == KeyState::Pressed {
            match key {
                Key::Character('=') => Some(Command::Grow),
                Key::Character('-') => Some(Command::Shrink),
                Key::SpecialKey(SpecialKey::Up) => Some(Command::MoveForward),
                Key::SpecialKey(SpecialKey::Down) => Some(Command::MoveBackward),
                _ => None,
            }
        } else {
            None
        },
        _ => None,
    }
}

/// Whether a binding is heeded outside of leader mode: those that move the focus are, and all that
/// the configuration makes. Of the arrows that are bound from the start, those with a meaning of
/// their own keep it, and the others are for the panes, which edit text with them.
pub open spec fn is_heeded(press: KeyPress, action: Action) -> bool {
    ||| action == Action::FocusNext
    ||| action == Action::FocusPrev
    ||| bound_action(Bindings::built_in().global, press, 0) != Some(action)
}

/// What a key asks for anywhere, except while a terminal has the keyboard.
pub open spec fn global_command(app: App, event: InputEvent) -> Option<Command> {
    match event {
        InputEvent::Keyboard(press) => match bound_action(app.keymap.global, press, 0) {
            Some(action) if is_heeded(press, action) => Some(command_of(action)),
            _ => own_global_command(press),
        },
        _ => None,
    }
}

/// What a command does.
#[verifier::opaque]
pub open spec fn commanded(app: App, command: Command, now: Nanos) -> Outcome {
    match command {
        Command::GrabTerminal => redraw(App { terminal_grabbed: true, ..app }),
        Command::OpenFilePicker => file_picker_opened(app),
        Command::OpenTerminal => Outcome {
            app,
            flow: EventPropagation::ConsumedRender,
            acts: seq![Act::OpenTerminal { cmd: None, cwd: None }],
        },
        Command::OpenThemePicker => theme_picker_opened(app),
        Command::Quit => Outcome {
            app,
            flow: EventPropagation::ExitMainEventLoop,
            acts: Seq::empty(),
        },
        Command::Grow => focus_resized(app, ResizeDelta::Grow, now),
        Command::Shrink => focus_resized(app, ResizeDelta::Shrink, now),
        Command::MoveForward => focus_moved(app, true, now),
        Command::MoveBackward => focus_moved(app, false, now),
        Command::FocusNext => focus_cycled_by(app, 1),
        Command::FocusPrev => focus_cycled_by(app, -1),
        Command::CloseTerminal => focused_terminal_closed(app, now),
        Command::Cancel => redraw(app),
    }
}

/// The first pane from the `i`-th on that covers a cell.
pub open spec fn pane_at(visible: Seq<PaneSlot>, pos: Pos, i: int) -> Option<Window>
    decreases visible.len() - i,
{
    if i >= visible.len() {
        None
    } else if visible[i].box_.covers(pos.col_index as int, pos.row_index as int) {
        Some(visible[i].window)
    } else {
        pane_at(visible, pos, i + 1)
    }
}

/// The pane that the mouse moves over, where it does so with no button and no key held.
pub open spec fn hovered(app: App, event: InputEvent) -> Option<Window> {
    match event {
        InputEvent::Mouse(mouse) => if mouse.kind == MouseInputKind::MouseMove
            && mouse.maybe_modifier_keys is None && !app.mouse_drag_active {
            pane_at(app.panes.layout(app.last_surface_size), mouse.pos, 0)
        } else {
            None
        },
        _ => None,
    }
}

/// The focus follows the mouse. A terminal takes the keyboard, unless it is scrolled back into its
/// history.
pub open spec fn focus_followed(app: App, window: Window) -> Outcome {
    let next = App { panes: Panes { focused: Some(window), ..app.panes }, ..app };
    Outcome {
        app: App {
            terminal_grabbed: match window {
                Window::Terminal(id) => !is_scrolled_back(app, id),
                _ => false,
            },
            ..next
        },
        flow: EventPropagation::ConsumedRender,
        acts: app.focus_acts(app.panes.focused, Some(window)),
    }
}

/// What an event does before a pane sees it, or `None` with the state in which the focused pane
/// sees it.
pub open spec fn app_outcome(app: App, event: InputEvent, window: Size, now: Nanos) -> (
    Option<Outcome>,
    App,
) {
    let a = App { last_surface_size: surface_of(window), ..app };
    if is_leader(a.keymap, event) && !a.mouse_drag_active && !a.leader_active {
        (Some(redraw(App { leader_active: true, terminal_grabbed: false, ..a })), a)
    } else {
        let leading = a.leader_active && !a.mouse_drag_active;
        let b = if leading {
            App { leader_active: false, ..a }
        } else {
            a
        };
        if leading && leader_command(b, event) is Some {
            (Some(commanded(b, leader_command(b, event)->0, now)), b)
        } else if (!terminal_focused(b) || !b.terminal_grabbed) && !b.mouse_drag_active
            && global_command(b, event) is Some {
            (Some(commanded(b, global_command(b, event)->0, now)), b)
        } else {
            match hovered(b, event) {
                Some(window) => if b.panes.focused != Some(window) {
                    (Some(focus_followed(b, window)), b)
                } else {
                    (None, b)
                },
                None => (None, b),
            }
        }
    }
}

/// Windows that change places leave the previews where their files are.
pub proof fn lemma_moves_stay_wf(app: App, window: Window)
    requires
        app.wf(),
    ensures
        (App { panes: app.panes.moved_forward(window), ..app }).wf(),
        (App { panes: app.panes.moved_backward(window), ..app }).wf(),
{
    let stack = app.panes.stack;
    stack.index_of_first_ensures(window);
    law_reordering_keeps_panes_valid(app.panes, window);
    let forward = app.panes.moved_forward(window).stack;
    let backward = app.panes.moved_backward(window).stack;
    assert forall|i: int| 0 <= i < forward.len() implies ((
    #[trigger] forward[i]) matches Window::FilePreview(key) ==> key.0 < app.files.len()) by {
        match stack.index_of_first(window) {
            Some(k) => {
                if k > 0 {
                    assert(stack[k] == stack[k]);
                    assert(stack[k - 1] == stack[k - 1]);
                }
                assert(stack[i] == stack[i]);
            },
            None => {
                assert(stack[i] == forward[i]);
            },
        }
    }
    assert forall|i: int| 0 <= i < backward.len() implies ((
    #[trigger] backward[i]) matches Window::FilePreview(key) ==> key.0 < app.files.len()) by {
        match stack.index_of_first(window) {
            Some(k) => {
                if k + 1 < stack.len() {
                    assert(stack[k] == stack[k]);
                    assert(stack[k + 1] == stack[k + 1]);
                }
                assert(stack[i] == stack[i]);
            },
            None => {
                assert(stack[i] == backward[i]);
            },
        }
    }
}

impl AppState {
    /// Moves the focus to another of the visible panes.
    pub fn cycle_focus(&mut self, direction: i32, effects: &mut Vec<Effect>)
        requires
            old(self).wf(),
            -1 <= direction <= 1,
        ensures
            final(self)@ == focus_cycled_by(old(self)@, direction as int).app,
            acts(final(effects)@) == acts(old(effects)@) + focus_cycled_by(
                old(self)@,
                direction as int,
            ).acts,
            final(self).files == old(self).files,
            final(self).wf(),
    {
        let ghost app = self@;
        let visible = self.pane_manager.layout(self.last_surface_size);
        let was = self.pane_manager.focused_window;
        self.pane_manager.cycle_focus(visible.as_slice(), direction);
        let is = self.pane_manager.focused_window;
        self.notify_terminal_focus_change(was, is, effects);
        self.sync_terminal_grabbed();
        proof {
            lemma_still_wf(app, self@);
        }
    }

    /// Opens the picker for files.
    pub fn open_file_picker(&mut self, effects: &mut Vec<Effect>)
        requires
            old(self).wf(),
        ensures
            final(self)@ == file_picker_opened(old(self)@).app,
            acts(final(effects)@) == acts(old(effects)@) + file_picker_opened(old(self)@).acts,
            final(self).files == old(self).files,
            final(self).wf(),
    {
        let ghost app = self@;
        let was = self.pane_manager.focused_window;
        self.notify_terminal_focus_change(was, Some(Window::FileNamePicker), effects);
        self.focus_new_window(Window::FileNamePicker);
        proof {
            crate::file_name_picker::lemma_stack_in_list(self);
        }
        let results = FileNamePickerComponent::open_previews_results(
            &self.files,
            &self.pane_manager.window_stack,
        );
        self.set_file_results(results);
        let ghost mid = self@;
        self.file_name_picker.selected = None;
        self.file_name_picker.query = String::new();
        proof {
            lemma_still_wf(mid, self@);
        }
        assert(self@ =~= file_picker_opened(app).app);
    }

    /// Lists all themes in the picker for themes, with the current one selected.
    pub fn list_all_themes(&mut self)
        requires
            old(self).wf(),
        ensures
            final(self)@ == (App {
                theme_picker: all_themes_listed(old(self)@.theme.name),
                ..old(self)@
            }),
            final(self).files == old(self).files,
            final(self).wf(),
    {
        let ghost app = self@;
        let names = HelixTheme::theme_names();
        let ghost all = theme_name_list();
        let ghost listed = all_themes_listed(app.theme.name);
        let mut results: Vec<(String, Vec<u32>)> = Vec::new();
        let mut selected: Option<String> = None;
        let mut i: usize = 0;
        assert(result_ids(results@) =~= listed.results.take(0));
        while i < names.len()
            invariant
                i <= names@.len(),
                names@.len() == all.len(),
                forall|j: int| 0 <= j < names@.len() ==> (#[trigger] names@[j])@ == all[j],
                self@ == app,
                all == theme_name_list(),
                listed == all_themes_listed(app.theme.name),
                result_ids(results@) == listed.results.take(i as int),
                selected is Some ==> selected->0@ == app.theme.name && all.contains(app.theme.name),
                selected is None ==> forall|j: int| 0 <= j < i ==> all[j] != app.theme.name,
            decreases names@.len() - i,
        {
            assert(names@[i as int]@ == all[i as int]);
            if selected.is_none() && crate::bytes::same_text(names[i], self.theme.name()) {
                selected = Some(copy_of(names[i]));
                assert(all[i as int] == app.theme.name);
            }
            let none: Vec<u32> = Vec::new();
            assert(none@ =~= Seq::<u32>::empty());
            let ghost so_far = results@;
            results.push((copy_of(names[i]), none));
            proof {
                crate::theme_picker::lemma_result_pushed(
                    so_far,
                    results@,
                    listed.results,
                    i as int,
                );
            }
            i += 1;
        }
        assert(listed.results.take(i as int) =~= listed.results);
        self.theme_picker.results = results;
        self.theme_picker.selected = selected;
        self.theme_picker.query = String::new();
        assert(self@.theme_picker =~= listed);
        proof {
            lemma_still_wf(app, self@);
        }
    }

    /// Opens the picker for themes.
    pub fn open_theme_picker(&mut self, effects: &mut Vec<Effect>)
        requires
            old(self).wf(),
        ensures
            final(self)@ == theme_picker_opened(old(self)@).app,
            acts(final(effects)@) == acts(old(effects)@) + theme_picker_opened(old(self)@).acts,
            final(self).files == old(self).files,
            final(self).wf(),
    {
        let ghost app = self@;
        let was = self.pane_manager.focused_window;
        self.notify_terminal_focus_change(was, Some(Window::ThemePicker), effects);
        let mut open = false;
        let mut i: usize = 0;
        while i < self.pane_manager.window_stack.len()
            invariant
                i <= self.pane_manager.window_stack@.len(),
                open == exists|j: int|
                    0 <= j < i && self.pane_manager.window_stack@[j] == Window::ThemePicker,
            decreases self.pane_manager.window_stack@.len() - i,
        {
            if self.pane_manager.window_stack[i] == Window::ThemePicker {
                open = true;
            }
            i += 1;
        }
        assert(open == app.panes.stack.contains(Window::ThemePicker));
        if !open {
            self.saved_theme = self.theme.copy();
        }
        proof {
            lemma_still_wf(app, self@);
        }
        self.focus_new_window(Window::ThemePicker);
        self.list_all_themes();
        assert(self@ =~= theme_picker_opened(app).app);
    }
}

} // verus!
