//! What the commands of the program do, and where the focus goes.

use vstd::prelude::*;
use crate::app_frame::{before_frame, shown_in};
use crate::app_keys::{app_outcome, commanded, pane_at, surface_of};
use crate::app_terminal::{program_ended, terminal_removed};
use crate::effect::Act;
use crate::file_name_picker::open_results;
use crate::geometry::{Pos, Size};
use crate::input::{EventPropagation, InputEvent, KeyPress, MouseInput, MouseInputKind};
use crate::keymap::{Action, bound_action};
use crate::layout::law_panes_do_not_overlap;
use crate::pane_manager::{
    PaneSize, PaneSlot, Window, law_remove_keeps_panes_valid, lemma_filter_other_than,
};
use crate::session_time::Nanos;
use crate::state::App;
use crate::terminal_pane::Outcome;

verus! {

/// What an event does before a pane sees it, where it does anything.
pub open spec fn done(app: App, event: InputEvent, size: Size, now: Nanos) -> Outcome {
    app_outcome(app, event, size, now).0->0
}

/// Whether a key behind the leader key stands for an action.
pub open spec fn leads_to(app: App, press: KeyPress, action: Action) -> bool {
    &&& app.leader_active
    &&& !app.mouse_drag_active
    &&& press != app.keymap.leader_key
    &&& bound_action(app.keymap.leader, press, 0) == Some(action)
}

/// The key for leaving leaves the program, and the one for a terminal asks for one, without a
/// command of its own. The leader mode ends with every action.
pub proof fn law_actions_behind_leader(
    app: App,
    press: KeyPress,
    action: Action,
    size: Size,
    now: Nanos,
)
    requires
        leads_to(app, press, action),
    ensures
        ({
            let event = InputEvent::Keyboard(press);
            let r = done(app, event, size, now);
            &&& app_outcome(app, event, size, now).0 is Some
            &&& !r.app.leader_active
            &&& r.flow == EventPropagation::ExitMainEventLoop <==> action == Action::Quit
            &&& action == Action::OpenTerminal ==> r.acts == seq![
                Act::OpenTerminal { cmd: None, cwd: None },
            ] && r.app.panes == app.panes
            &&& action == Action::GrabTerminal ==> r.app.terminal_grabbed && r.app.panes
                == app.panes
            &&& action == Action::DismissLeader || action == Action::Quit ==> r.acts.len() == 0
                && r.app == (App {
                leader_active: false,
                last_surface_size: surface_of(size),
                ..app
            })
        }),
{
    reveal(commanded);
}

/// The key for the list of files opens it in front, with the focus, with nothing typed and with the
/// open windows to choose from.
pub proof fn law_file_picker_opens(app: App, press: KeyPress, size: Size, now: Nanos)
    requires
        leads_to(app, press, Action::OpenFilePicker),
    ensures
        ({
            let r = done(app, InputEvent::Keyboard(press), size, now);
            &&& r.app.panes.focused == Some(Window::FileNamePicker)
            &&& r.app.panes.stack.len() > 0
            &&& r.app.panes.stack[0] == Window::FileNamePicker
            &&& r.app.file_name_picker.query == Seq::<char>::empty()
            &&& r.app.file_name_picker.results == open_results(app.files, r.app.panes.stack)
            &&& r.app.files == app.files
        }),
{
    reveal(commanded);
}

/// The key for the themes opens their list in front, with the focus. The theme that is shown stays,
/// and is the one to come back to.
pub proof fn law_theme_picker_opens(app: App, press: KeyPress, size: Size, now: Nanos)
    requires
        leads_to(app, press, Action::OpenThemePicker),
    ensures
        ({
            let r = done(app, InputEvent::Keyboard(press), size, now);
            &&& r.app.panes.focused == Some(Window::ThemePicker)
            &&& r.app.panes.stack.len() > 0
            &&& r.app.panes.stack[0] == Window::ThemePicker
            &&& r.app.theme_picker.query == Seq::<char>::empty()
            &&& r.app.theme == app.theme
            &&& !app.panes.stack.contains(Window::ThemePicker) ==> r.app.saved_theme == app.theme
            &&& app.panes.stack.contains(Window::ThemePicker) ==> r.app.saved_theme
                == app.saved_theme
        }),
{
    reveal(commanded);
}

/// The key for closing takes away the focused terminal with its program; the other windows stay,
/// and the session is to be saved.
pub proof fn law_terminal_is_closed(app: App, press: KeyPress, id: usize, size: Size, now: Nanos)
    requires
        leads_to(app, press, Action::ClosePane),
        app.panes.wf(),
        app.panes.focused == Some(Window::Terminal(id)),
        app.terminals.contains_key(id),
    ensures
        ({
            let r = done(app, InputEvent::Keyboard(press), size, now);
            &&& !r.app.terminals.contains_key(id)
            &&& !r.app.panes.stack.contains(Window::Terminal(id))
            &&& r.app.panes.focused != Some(Window::Terminal(id))
            &&& r.acts.contains(Act::KillTerminal(id))
            &&& r.app.session_dirty_at == Some(now)
            &&& forall|w: Window|
                w != Window::Terminal(id) ==> #[trigger] r.app.panes.stack.contains(w)
                    == app.panes.stack.contains(w)
            &&& forall|other: usize|
                other != id ==> #[trigger] r.app.terminals.contains_key(other)
                    == app.terminals.contains_key(other) && r.app.terminals[other]
                    == app.terminals[other]
        }),
{
    reveal(commanded);
    let a = App { leader_active: false, last_surface_size: surface_of(size), ..app };
    law_remove_keeps_panes_valid(a.panes, Window::Terminal(id));
    lemma_filter_other_than(a.panes.stack, Window::Terminal(id));
    let acts = terminal_removed(a, id, now).1;
    let told = a.focus_act(Some(Window::Terminal(id)), seq![0x1bu8, 0x5b, 0x4f]);
    assert(acts[told.len() as int] == Act::KillTerminal(id));
}

/// The keys for the size change that of the focused pane, and those for its place its place; the
/// other windows keep their size, and the session is to be saved.
pub proof fn law_focused_pane_is_arranged(
    app: App,
    press: KeyPress,
    action: Action,
    window: Window,
    size: Size,
    now: Nanos,
)
    requires
        leads_to(app, press, action),
        app.panes.focused == Some(window),
        action == Action::ResizeGrow || action == Action::ResizeShrink || action
            == Action::MovePaneForward || action == Action::MovePaneBackward,
    ensures
        ({
            let r = done(app, InputEvent::Keyboard(press), size, now).app;
            let was = app.panes.state_of(window).pane_size;
            let is = r.panes.state_of(window).pane_size;
            &&& r.panes.focused == Some(window)
            &&& r.session_dirty_at == Some(now)
            &&& action == Action::ResizeGrow ==> (is.requested(120) > was.requested(120) || was
                == PaneSize::Full && is == was)
            &&& action == Action::ResizeShrink ==> (is.requested(120) < was.requested(120) || was
                == PaneSize::Quarter && is == was)
            &&& action == Action::ResizeGrow || action == Action::ResizeShrink ==> r.panes.stack
                == app.panes.stack
            &&& action == Action::MovePaneForward ==> r.panes == app.panes.moved_forward(window)
            &&& action == Action::MovePaneBackward ==> r.panes == app.panes.moved_backward(window)
            &&& forall|w: Window|
                w != window ==> #[trigger] r.panes.state_of(w) == app.panes.state_of(w)
        }),
{
    reveal(commanded);
}

/// The mouse gives the focus to the pane that it moves over, with no key held and nothing dragged.
/// No window moves; a terminal takes the keyboard, unless it is scrolled back.
pub proof fn law_focus_follows_mouse(app: App, mouse: MouseInput, size: Size, now: Nanos, i: int)
    requires
        mouse.kind == MouseInputKind::MouseMove,
        mouse.maybe_modifier_keys is None,
        !app.mouse_drag_active,
        0 <= i < app.panes.layout(surface_of(size)).len(),
        app.panes.layout(surface_of(size))[i].box_.covers(
            mouse.pos.col_index as int,
            mouse.pos.row_index as int,
        ),
    ensures
        ({
            let event = InputEvent::Mouse(mouse);
            let window = app.panes.layout(surface_of(size))[i].window;
            let r = done(app, event, size, now).app;
            if app.panes.focused == Some(window) {
                app_outcome(app, event, size, now).0 is None
            } else {
                &&& app_outcome(app, event, size, now).0 is Some
                &&& r.panes.focused == Some(window)
                &&& r.panes.stack == app.panes.stack
                &&& r.terminal_grabbed <==> (window matches Window::Terminal(id) && !(
                app.terminals.contains_key(id) && app.terminals[id].scroll_offset > 0))
            }
        }),
{
    let visible = app.panes.layout(surface_of(size));
    lemma_pane_covers(app, surface_of(size), mouse.pos, i, 0);
}

/// The pane that covers a cell is found, as no other does.
proof fn lemma_pane_covers(
    app: App,
    surface: Size,
    pos: Pos,
    i: int,
    from: int,
)
    requires
        0 <= from <= i < app.panes.layout(surface).len(),
        app.panes.layout(surface)[i].box_.covers(pos.col_index as int, pos.row_index as int),
    ensures
        pane_at(app.panes.layout(surface), pos, from) == Some(app.panes.layout(surface)[i].window),
    decreases i - from,
{
    if from < i {
        law_panes_do_not_overlap(
            app.panes,
            surface,
            from,
            i,
            pos.col_index as int,
            pos.row_index as int,
        );
        lemma_pane_covers(app, surface, pos, i, from + 1);
    }
}

/// While something is dragged, or where the mouse is over no pane, the focus stays.
pub proof fn law_focus_stays_without_pane(app: App, mouse: MouseInput, size: Size, now: Nanos)
    requires
        app.mouse_drag_active || forall|i: int|
            0 <= i < app.panes.layout(surface_of(size)).len() ==> !(#[trigger] app.panes.layout(
                surface_of(size),
            )[i]).box_.covers(mouse.pos.col_index as int, mouse.pos.row_index as int),
    ensures
        app_outcome(app, InputEvent::Mouse(mouse), size, now).0 is None,
        app_outcome(app, InputEvent::Mouse(mouse), size, now).1.panes == app.panes,
{
    let visible = app.panes.layout(surface_of(size));
    if !app.mouse_drag_active {
        lemma_no_pane_covers(visible, mouse.pos, 0);
    }
}

proof fn lemma_no_pane_covers(
    visible: Seq<PaneSlot>,
    pos: Pos,
    from: int,
)
    requires
        0 <= from,
        forall|i: int|
            0 <= i < visible.len() ==> !(#[trigger] visible[i]).box_.covers(
                pos.col_index as int,
                pos.row_index as int,
            ),
    ensures
        pane_at(visible, pos, from) is None,
    decreases visible.len() - from,
{
    if from < visible.len() {
        lemma_no_pane_covers(visible, pos, from + 1);
    }
}

/// Before a frame the focus is on a visible pane: it stays where it can be seen, and goes to the
/// front pane otherwise, unless something is dragged.
pub proof fn law_focus_can_be_seen(app: App, size: Size)
    requires
        !app.mouse_drag_active,
        app.panes.layout(surface_of(size)).len() > 0,
    ensures
        ({
            let visible = app.panes.layout(surface_of(size));
            let after = before_frame(app, size);
            &&& after.panes.stack == app.panes.stack
            &&& (exists|i: int|
                0 <= i < visible.len() && Some((#[trigger] visible[i]).window)
                    == app.panes.focused) ==> after.panes.focused == app.panes.focused
            &&& !(exists|i: int|
                0 <= i < visible.len() && Some((#[trigger] visible[i]).window)
                    == app.panes.focused) ==> after.panes.focused == Some(visible[0].window)
        }),
{
    let visible = app.panes.layout(surface_of(size));
    if let Some(w) = app.panes.focused {
        lemma_shown(visible, w, 0);
    }
}

proof fn lemma_shown(visible: Seq<PaneSlot>, window: Window, from: int)
    requires
        0 <= from <= visible.len(),
    ensures
        shown_in(visible, window, from) <==> exists|i: int|
            from <= i < visible.len() && (#[trigger] visible[i]).window == window,
    decreases visible.len() - from,
{
    if from < visible.len() {
        lemma_shown(visible, window, from + 1);
        if visible[from].window == window {
            assert(visible[from].window == window);
        }
    }
}

/// A terminal whose program has ended stays where it shows anything, with the exit code.
pub proof fn law_ended_program_leaves_its_output(
    app: App,
    id: usize,
    code: Option<u32>,
    signal: Option<Seq<char>>,
    now: Nanos,
    row: int,
    col: int,
)
    requires
        app.panes.wf(),
        app.terminals.contains_key(id),
        0 <= row < app.terminals[id].screen.buffer.len(),
        0 <= col < app.terminals[id].screen.buffer[row].len(),
        app.terminals[id].screen.buffer[row][col] is PlainText,
    ensures
        ({
            let (after, acts) = program_ended(app, id, code, signal, now);
            &&& after.terminals.contains_key(id)
            &&& after.terminals[id].exited
            &&& after.terminals[id].exit_code == code
            &&& after.terminals[id].exit_signal == signal
            &&& after.terminals[id].screen == app.terminals[id].screen
            &&& after.panes == app.panes
            &&& acts.len() == 0
        }),
{
}

/// A terminal that shows nothing goes with its program.
pub proof fn law_empty_terminal_goes_with_program(
    app: App,
    id: usize,
    code: Option<u32>,
    signal: Option<Seq<char>>,
    now: Nanos,
)
    requires
        app.panes.wf(),
        app.terminals.contains_key(id),
        forall|row: int, col: int|
            0 <= row < app.terminals[id].screen.buffer.len() && 0 <= col
                < app.terminals[id].screen.buffer[row].len() ==> !((
            #[trigger] app.terminals[id].screen.buffer[row][col]) is PlainText),
    ensures
        ({
            let after = program_ended(app, id, code, signal, now).0;
            &&& !after.terminals.contains_key(id)
            &&& !after.panes.stack.contains(Window::Terminal(id))
            &&& after.session_dirty_at == Some(now)
        }),
{
    law_remove_keeps_panes_valid(app.panes, Window::Terminal(id));
}

} // verus!
