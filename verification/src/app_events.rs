//! How an input event goes through the program: its own keys first, and the focused pane last.

use vstd::prelude::*;
use crate::app_keys::{
    Command, app_outcome, command_of, commanded, focus_followed, global_command, is_heeded,
    is_leader, leader_command, leader_pressed, lemma_moves_stay_wf, own_global_command,
    own_leader_command, pane_at, surface_of, surface_size, terminal_focused,
};
use crate::effect::{Act, Effect, PtyInputEvent, acts, perform};
use crate::geometry::{Pos, Size};
use crate::ids::{FlexBoxId, Id};
use crate::input::{
    EventPropagation, InputEvent, Key, KeyPress, KeyState, MouseInputKind, SpecialKey,
};
use crate::keymap::{Action, Bindings, Keymap, bound_action};
use crate::pane::PaneComponent;
use crate::pane_component::surroundings;
use crate::pane_manager::{PaneSlot, ResizeDelta, Window};
use crate::pane_mouse::{releases, selection_fits};
use crate::session_time::Nanos;
use crate::state::{App, AppState, lemma_still_wf};

verus! {

/// What an action asks for.
fn command_for(action: Action) -> (r: Command)
    ensures
        r == command_of(action),
{
    match action {
        Action::Quit => Command::Quit,
        Action::FocusNext => Command::FocusNext,
        Action::FocusPrev => Command::FocusPrev,
        Action::OpenFilePicker => Command::OpenFilePicker,
        Action::OpenTerminal => Command::OpenTerminal,
        Action::OpenThemePicker => Command::OpenThemePicker,
        Action::ClosePane => Command::CloseTerminal,
        Action::GrabTerminal => Command::GrabTerminal,
        Action::DismissLeader => Command::Cancel,
        Action::ResizeGrow => Command::Grow,
        Action::ResizeShrink => Command::Shrink,
        Action::MovePaneForward => Command::MoveForward,
        Action::MovePaneBackward => Command::MoveBackward,
    }
}

/// What a key that is bound to nothing asks for behind the leader key.
fn unbound_behind_leader(press: &KeyPress) -> (r: Option<Command>)
    ensures
        r == own_leader_command(*press),
{
    match press {
        KeyPress::Plain { key } => match key {
            Key::Character('=') => Some(Command::Grow),
            Key::Character('-') => Some(Command::Shrink),
            Key::SpecialKey(SpecialKey::Up) => Some(Command::MoveForward),
            Key::SpecialKey(SpecialKey::Down) => Some(Command::MoveBackward),
            _ => None,
        },
        _ => None,
    }
}

/// What a key asks for behind the leader key.
fn command_behind_leader(state: &AppState, event: &InputEvent) -> (r: Option<Command>)
    ensures
        r == leader_command(state@, *event),
{
    match event {
        InputEvent::Keyboard(press) => match state.keymap.leader_action(press) {
            Some(action) => {
                let on_terminal = matches!(
                    state.pane_manager.focused_window,
                    Some(Window::Terminal(_))
                );
                if leader_pressed(&state.keymap, event) && !on_terminal {
                    unbound_behind_leader(press)
                } else {
                    Some(command_for(action))
                }
            },
            None => unbound_behind_leader(press),
        },
        _ => None,
    }
}

/// What a key that is bound to nothing asks for anywhere.
fn unbound_anywhere(press: &KeyPress) -> (r: Option<Command>)
    ensures
        r == own_global_command(*press),
{
    match press {
        KeyPress::WithModifiers { key, mask } => if mask.ctrl_key_state == KeyState::Pressed {
            match key {
                Key::Character('=') => Some(Command::Grow),
                Key::Character('-') => Some(Command::Shrink),
                Key::SpecialKey(SpecialKey::Up) => Some(Command::MoveForward),
                Key::SpecialKey(SpecialKey::Down) => Some(Command::MoveBackward),
                _ => None,
            }
        } else {
            None
        },
        _ => None,
    }
}

/// Whether a binding is heeded outside of leader mode.
fn heeds(press: &KeyPress, action: Action) -> (r: bool)
    ensures
        r == is_heeded(*press, action),
{
    if action == Action::FocusNext || action == Action::FocusPrev {
        return true;
    }
    match Keymap::default().global_action(press) {
        Some(built_in) => built_in != action,
        None => true,
    }
}

/// What a key asks for anywhere.
fn command_anywhere(state: &AppState, event: &InputEvent) -> (r: Option<Command>)
    ensures
        r == global_command(state@, *event),
{
    match event {
        InputEvent::Keyboard(press) => match state.keymap.global_action(press) {
            Some(action) => if heeds(press, action) {
                Some(command_for(action))
            } else {
                unbound_anywhere(press)
            },
            None => unbound_anywhere(press),
        },
        _ => None,
    }
}

/// Which of the visible panes covers a cell.
fn pane_under(visible: &Vec<PaneSlot>, pos: Pos) -> (r: Option<Window>)
    ensures
        r == pane_at(visible@, pos, 0),
{
    let mut i: usize = 0;
    while i < visible.len()
        invariant
            i <= visible@.len(),
            pane_at(visible@, pos, 0) == pane_at(visible@, pos, i as int),
        decreases visible@.len() - i,
    {
        if visible[i].box_.covers_cell(pos.col_index, pos.row_index) {
            return Some(visible[i].window);
        }
        i += 1;
    }
    None
}

impl AppState {
    /// Resizes the focused pane.
    fn resize_pane(&mut self, delta: ResizeDelta, now: Nanos)
        requires
            old(self).wf(),
        ensures
            final(self)@ == crate::app_keys::focus_resized(old(self)@, delta, now).app,
            final(self).files == old(self).files,
            final(self).wf(),
    {
        let ghost app = self@;
        self.pane_manager.resize_focused(delta);
        self.mark_session_dirty(now);
        proof {
            lemma_still_wf(app, self@);
        }
    }

    /// Lets the focused pane change places with its neighbour.
    fn move_pane(&mut self, forward: bool, now: Nanos)
        requires
            old(self).wf(),
        ensures
            final(self)@ == crate::app_keys::focus_moved(old(self)@, forward, now).app,
            final(self).files == old(self).files,
            final(self).wf(),
    {
        let ghost app = self@;
        if let Some(window) = self.pane_manager.focused_window {
            proof {
                lemma_moves_stay_wf(app, window);
            }
            if forward {
                self.pane_manager.move_forward(&window);
            } else {
                self.pane_manager.move_backward(&window);
            }
            let ghost mid = self@;
            self.mark_session_dirty(now);
            proof {
                lemma_still_wf(mid, self@);
            }
        }
    }

    /// Does what a command asks for.
    pub fn run_command(&mut self, command: Command, now: Nanos, effects: &mut Vec<Effect>) -> (r:
        EventPropagation)
        requires
            old(self).wf(),
        ensures
            ({
                let o = commanded(old(self)@, command, now);
                &&& final(self)@ == o.app
                &&& r == o.flow
                &&& acts(final(effects)@) == acts(old(effects)@) + o.acts
            }),
            final(self).files == old(self).files,
            final(self).wf(),
    {
        let ghost app = self@;
        let ghost before = acts(effects@);
        proof {
            reveal(commanded);
            assert(before + Seq::<Act>::empty() =~= before);
        }
        match command {
            Command::GrabTerminal => {
                self.terminal_grabbed = true;
                proof {
                    lemma_still_wf(app, self@);
                }
            },
            Command::OpenFilePicker => self.open_file_picker(effects),
            Command::OpenTerminal => {
                perform(effects, Effect::OpenTerminal { cmd: None, cwd: None });
                assert(acts(effects@) =~= before + seq![
                    Act::OpenTerminal { cmd: None, cwd: None },
                ]);
            },
            Command::OpenThemePicker => self.open_theme_picker(effects),
            Command::Quit => {
                return EventPropagation::ExitMainEventLoop;
            },
            Command::Grow => self.resize_pane(ResizeDelta::Grow, now),
            Command::Shrink => self.resize_pane(ResizeDelta::Shrink, now),
            Command::MoveForward => self.move_pane(true, now),
            Command::MoveBackward => self.move_pane(false, now),
            Command::FocusNext => self.cycle_focus(1, effects),
            Command::FocusPrev => self.cycle_focus(-1, effects),
            Command::CloseTerminal => {
                if let Some(Window::Terminal(id)) = self.pane_manager.focused_window {
                    self.remove_terminal(id, now, effects);
                }
            },
            Command::Cancel => {},
        }
        EventPropagation::ConsumedRender
    }

    /// Moves the focus to the pane under the mouse.
    fn follow_mouse(&mut self, window: Window, effects: &mut Vec<Effect>)
        requires
            old(self).wf(),
        ensures
            final(self)@ == focus_followed(old(self)@, window).app,
            acts(final(effects)@) == acts(old(effects)@) + focus_followed(old(self)@, window).acts,
            final(self).files == old(self).files,
            final(self).wf(),
    {
        let ghost app = self@;
        let was = self.pane_manager.focused_window;
        self.notify_terminal_focus_change(was, Some(window), effects);
        self.pane_manager.focused_window = Some(window);
        self.terminal_grabbed = match window {
            Window::Terminal(id) => match self.terminal_panes.get(&id) {
                Some(pane) => pane.scroll_offset == 0,
                None => true,
            },
            _ => false,
        };
        proof {
            lemma_still_wf(app, self@);
        }
        assert(self@ =~= focus_followed(app, window).app);
    }

    /// Handles an event before the panes see it. Where it is not for the program itself, the
    /// result is `None`, and it is for the focused pane.
    pub fn handle_app_event(
        &mut self,
        event: &InputEvent,
        window_size: Size,
        now: Nanos,
        effects: &mut Vec<Effect>,
    ) -> (r: Option<EventPropagation>)
        requires
            old(self).wf(),
        ensures
            match app_outcome(old(self)@, *event, window_size, now) {
                (Some(o), _) => {
                    &&& final(self)@ == o.app
                    &&& r == Some(o.flow)
                    &&& acts(final(effects)@) == acts(old(effects)@) + o.acts
                },
                (None, app) => {
                    &&& final(self)@ == app
                    &&& r is None
                    &&& acts(final(effects)@) == acts(old(effects)@)
                },
            },
            final(self).files == old(self).files,
            final(self).wf(),
    {
        let ghost first = self@;
        self.last_surface_size = surface_size(window_size);
        let ghost a = App { last_surface_size: surface_of(window_size), ..first };
        proof {
            assert(self@ =~= a);
            assert(acts(effects@) + Seq::<Act>::empty() =~= acts(effects@));
            lemma_still_wf(first, self@);
        }
        if leader_pressed(&self.keymap, event) && !self.mouse_drag_active && !self.leader_active {
            self.leader_active = true;
            self.terminal_grabbed = false;
            proof {
                lemma_still_wf(a, self@);
            }
            return Some(EventPropagation::ConsumedRender);
        }
        let leading = self.leader_active && !self.mouse_drag_active;
        if leading {
            self.leader_active = false;
            proof {
                lemma_still_wf(a, self@);
            }
            if let Some(command) = command_behind_leader(self, event) {
                return Some(self.run_command(command, now, effects));
            }
        }
        let ghost b = self@;
        let on_terminal = matches!(self.pane_manager.focused_window, Some(Window::Terminal(_)));
        if (!on_terminal || !self.terminal_grabbed) && !self.mouse_drag_active {
            if let Some(command) = command_anywhere(self, event) {
                return Some(self.run_command(command, now, effects));
            }
        }
        if let InputEvent::Mouse(mouse) = event {
            if mouse.kind == MouseInputKind::MouseMove && mouse.maybe_modifier_keys.is_none()
                && !self.mouse_drag_active {
                let visible = self.pane_manager.layout(self.last_surface_size);
                if let Some(window) = pane_under(&visible, mouse.pos) {
                    if self.pane_manager.focused_window != Some(window) {
                        self.follow_mouse(window, effects);
                        return Some(EventPropagation::ConsumedRender);
                    }
                }
            }
        }
        None
    }
}

/// The slot of the pane that the focused window is in. Windows without a pane of their own share
/// the last one.
pub open spec fn focused_slot_of(app: App) -> int {
    match app.panes.focused {
        None => 0,
        Some(w) => match app.panes.stack.index_of_first(w) {
            None => 0,
            Some(i) => if i < 15 {
                i
            } else {
                15
            },
        },
    }
}

/// The id of the pane that the focused window is in.
pub fn focused_pane_id(state: &AppState) -> (r: FlexBoxId)
    ensures
        r.inner == 2 + focused_slot_of(state@),
        2 <= r.inner <= 17,
{
    proof {
        if let Some(w) = state@.panes.focused {
            state@.panes.stack.index_of_first_ensures(w);
        }
    }
    match state.pane_manager.focused_slot() {
        Some(slot) => FlexBoxId::from(Id::pane(slot)),
        None => FlexBoxId::from(Id::Pane0),
    }
}

/// Handles an input event: what is not for the program itself goes to the pane of the focused
/// window.
pub fn handle_input_event(
    panes: &mut Vec<PaneComponent>,
    state: &mut AppState,
    event: &InputEvent,
    window_size: Size,
    key: Option<PtyInputEvent>,
    mouse: Option<Vec<u8>>,
    crate_root: Option<&str>,
    repo_root: Option<&str>,
    now: Nanos,
    effects: &mut Vec<Effect>,
) -> (r: EventPropagation)
    requires
        old(state).wf(),
        old(panes)@.len() == 16,
        forall|i: int|
            0 <= i < 16 ==> (#[trigger] old(panes)@[i])@.wf() && old(panes)@[i]@.has_room(
                old(state)@,
                *event,
            ),
        *event matches InputEvent::Mouse(mouse) ==> (releases(mouse) ==> selection_fits(
            old(state)@,
        )),
    ensures
        final(panes)@.len() == 16,
        forall|i: int| 0 <= i < 16 ==> (#[trigger] final(panes)@[i])@.wf(),
        match app_outcome(old(state)@, *event, window_size, now) {
            (Some(o), _) => {
                &&& final(panes)@ == old(panes)@
                &&& final(state)@ == o.app
                &&& r == o.flow
                &&& acts(final(effects)@) == acts(old(effects)@) + o.acts
            },
            (None, app) => {
                let slot = focused_slot_of(app);
                let (pane, o) = old(panes)@[slot]@.outcome(
                    app,
                    *event,
                    surroundings(key, mouse, crate_root, repo_root),
                    now,
                );
                &&& forall|i: int|
                    0 <= i < 16 && i != slot ==> #[trigger] final(panes)@[i] == old(panes)@[i]
                &&& final(panes)@[slot]@ == pane
                &&& final(state)@ == o.app
                &&& r == o.flow
                &&& acts(final(effects)@) == acts(old(effects)@) + o.acts
            },
        },
        final(state).files == old(state).files,
        final(state).wf(),
{
    let ghost app = app_outcome(state@, *event, window_size, now).1;
    match state.handle_app_event(event, window_size, now, effects) {
        Some(flow) => flow,
        None => {
            let slot: usize = focused_pane_id(state).inner as usize - 2;
            assert(panes@[slot as int]@.has_room(state@, *event));
            panes[slot].handle_event(
                state,
                event,
                key,
                mouse,
                crate_root,
                repo_root,
                now,
                effects,
            )
        },
    }
}

/// The leader key, pressed while nothing is dragged, makes the program wait for a command and takes
/// the keyboard from terminals; pressed once more over a terminal, it gives the keyboard back.
pub proof fn law_leader_twice_grabs_terminal(
    app: App,
    event: InputEvent,
    window: Size,
    earlier: Nanos,
    later: Nanos,
)
    requires
        is_leader(app.keymap, event),
        !app.mouse_drag_active,
        !app.leader_active,
        terminal_focused(app),
    ensures
        ({
            let first = app_outcome(app, event, window, earlier).0->0.app;
            let second = app_outcome(first, event, window, later).0->0.app;
            &&& app_outcome(app, event, window, earlier).0 is Some
            &&& first.leader_active && !first.terminal_grabbed
            &&& app_outcome(first, event, window, later).0 is Some
            &&& !second.leader_active && second.terminal_grabbed
        }),
{
    reveal(commanded);
}

/// Commands work behind the leader key even while a terminal has the keyboard: the leader key takes
/// the keyboard from it, and the next key does what it stands for.
pub proof fn law_leader_commands_work_anywhere(
    app: App,
    leader: InputEvent,
    event: InputEvent,
    window: Size,
    earlier: Nanos,
    later: Nanos,
)
    requires
        is_leader(app.keymap, leader),
        !app.mouse_drag_active,
        !app.leader_active,
    ensures
        ({
            let first = app_outcome(app, leader, window, earlier).0->0.app;
            let waiting = App { leader_active: false, ..first };
            &&& !waiting.terminal_grabbed
            &&& leader_command(waiting, event) matches Some(command) ==> app_outcome(
                first,
                event,
                window,
                later,
            ).0 == Some(commanded(waiting, command, later))
        }),
{
    let first = app_outcome(app, leader, window, earlier).0->0.app;
    assert((App { last_surface_size: surface_of(window), ..first }) =~= first);
}

/// Leaving the leader mode without a command does nothing else: a terminal that had the keyboard
/// before does not get it back.
pub proof fn law_cancelling_keeps_keyboard_from_terminal(
    app: App,
    leader: InputEvent,
    event: InputEvent,
    window: Size,
    earlier: Nanos,
    later: Nanos,
)
    requires
        is_leader(app.keymap, leader),
        !app.mouse_drag_active,
        !app.leader_active,
    ensures
        ({
            let first = app_outcome(app, leader, window, earlier).0->0.app;
            let waiting = App { leader_active: false, ..first };
            leader_command(waiting, event) == Some(Command::Cancel) ==> {
                let outcome = app_outcome(first, event, window, later).0;
                &&& outcome is Some
                &&& outcome->0.app == (App {
                    terminal_grabbed: false,
                    last_surface_size: surface_of(window),
                    ..app
                })
                &&& outcome->0.acts == Seq::<Act>::empty()
            }
        }),
{
    reveal(commanded);
    let first = app_outcome(app, leader, window, earlier).0->0.app;
    assert((App { last_surface_size: surface_of(window), ..first }) =~= first);
}

/// Keys do what they are bound to: behind the leader key, where another key is the leader, and
/// anywhere else, where the configuration bound them or they move the focus.
pub proof fn law_bindings_take_effect(app: App, press: KeyPress, action: Action)
    ensures
        press != app.keymap.leader_key && bound_action(app.keymap.leader, press, 0) == Some(action)
            ==> leader_command(app, InputEvent::Keyboard(press)) == Some(command_of(action)),
        bound_action(app.keymap.global, press, 0) == Some(action) && (bound_action(
            Bindings::built_in().global,
            press,
            0,
        ) is None || action == Action::FocusNext || action == Action::FocusPrev)
            ==> global_command(app, InputEvent::Keyboard(press)) == Some(command_of(action)),
{
}

/// While a terminal has the keyboard, every key but the leader goes to its pane.
pub proof fn law_grabbed_terminal_gets_keys(app: App, key: KeyPress, window: Size, now: Nanos)
    requires
        terminal_focused(app),
        app.terminal_grabbed,
        !app.leader_active,
        key != app.keymap.leader_key,
    ensures
        app_outcome(app, InputEvent::Keyboard(key), window, now).0 is None,
{
}

} // verus!
