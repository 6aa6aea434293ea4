//! The status bar, at the bottom of the window.

use vstd::prelude::*;
use crate::geometry::{Pos, Size};
use crate::keymap::{Action, Bindings, Keymap, bound_key, hint, hint_of};
use crate::pane_manager::Window;
use crate::render::{
    Draw, RenderOp, RgbValue, TuiColor, TuiStyle, bold_colored, colored, draws, emit, paint, rgb,
};
use crate::state::{App, AppState};
use crate::text::{copy_of, spaces};
use crate::theme::{HelixTheme, Theme};

verus! {

/// What the keys for panes do, each with `prefix` before the key and `sep` between them.
pub open spec fn action_hints(prefix: Seq<char>, sep: Seq<char>) -> Seq<char> {
    prefix + "=:Grow"@ + sep + prefix + "-:Shrink"@ + sep + prefix + "↑:Forward"@ + sep + prefix
        + "↓:Backward"@
}

/// What the keys for panes do.
pub fn pane_action_hints(prefix: &str, sep: &str) -> (r: String)
    ensures
        r@ == action_hints(prefix@, sep@),
{
    let mut out = copy_of(prefix);
    out.append("=:Grow");
    out.append(sep);
    out.append(prefix);
    out.append("-:Shrink");
    out.append(sep);
    out.append(prefix);
    out.append("↑:Forward");
    out.append(sep);
    out.append(prefix);
    out.append("↓:Backward");
    out
}

/// What the keys of a window do.
pub trait WindowHints {
    /// What the keys of the window do.
    spec fn key_hints(&self) -> Seq<char>;

    /// What the keys of the window do.
    fn pane_key_hints(&self) -> (r: &'static str)
        ensures
            r@ == self.key_hints(),
    ;
}

impl WindowHints for Window {
    open spec fn key_hints(&self) -> Seq<char> {
        match *self {
            Window::FileNamePicker => "Esc:Close  Enter:Open"@,
            Window::ThemePicker => "Esc:Cancel  Enter:Save"@,
            Window::FilePreview(_) => "Esc:Send to back  ::Command"@,
            Window::Terminal(_) => ""@,
        }
    }

    fn pane_key_hints(&self) -> (r: &'static str) {
        match self {
            Window::FileNamePicker => "Esc:Close  Enter:Open",
            Window::ThemePicker => "Esc:Cancel  Enter:Save",
            Window::FilePreview(_) => "Esc:Send to back  ::Command",
            Window::Terminal(_) => "",
        }
    }
}

/// What the keys of the focused window do. A terminal that does not have the keyboard can be given
/// it, and can be scrolled.
pub open spec fn focused_hints(app: App) -> Seq<char> {
    match app.panes.focused {
        Some(window) => if window is Terminal && !app.terminal_grabbed {
            "Enter:grab  ↑↓PgUp/PgDn:scroll"@
        } else {
            window.key_hints()
        },
        None => ""@,
    }
}

/// The key for an action behind the leader key, as it is written.
pub open spec fn leader_hint(keymap: Bindings, action: Action) -> Seq<char> {
    match bound_key(keymap.leader, action, 0) {
        Some(key) => hint_of(key),
        None => ""@,
    }
}

/// What the keys that are bound behind the leader key do.
pub open spec fn leader_hints(keymap: Bindings) -> Seq<char> {
    leader_hint(keymap, Action::OpenFilePicker) + ":Picker  "@ + leader_hint(
        keymap,
        Action::OpenTerminal,
    ) + ":Term  "@ + leader_hint(keymap, Action::OpenThemePicker) + ":Theme  "@ + leader_hint(
        keymap,
        Action::ClosePane,
    ) + ":Close  "@ + leader_hint(keymap, Action::Quit) + ":Quit  "@ + leader_hint(
        keymap,
        Action::FocusNext,
    ) + ":Next  "@ + leader_hint(keymap, Action::FocusPrev) + ":Prev  "@
}

/// Writes the key for an action behind the leader key, and what it does.
fn add_hint(out: &mut String, keymap: &Keymap, action: Action, label: &str)
    ensures
        final(out)@ == old(out)@ + leader_hint(keymap@, action) + label@,
{
    match keymap.leader_key_for(action) {
        Some(key) => out.append(hint(&key).as_str()),
        None => out.append(""),
    }
    out.append(label);
}

/// The texts of the status bar: what is said of the leader key, and what other keys do.
pub open spec fn status_texts(app: App) -> (Seq<char>, Seq<char>) {
    if app.leader_active {
        (
            " Leader "@,
            leader_hints(app.keymap) + action_hints(""@, "  "@) + "  Esc:Cancel"@,
        )
    } else {
        let pane = focused_hints(app);
        let rest = action_hints("Ctrl+"@, "  "@);
        (
            " "@ + hint_of(app.keymap.leader_key) + ": Leader "@,
            if pane.len() == 0 {
                rest
            } else {
                rest + "  "@ + pane
            },
        )
    }
}

/// The colours of the status bar: text and background.
pub open spec fn status_colors(theme: Theme) -> (TuiColor, TuiColor) {
    (
        TuiColor::Rgb(
            match theme.fg("ui.statusline"@) {
                Some(c) => c,
                None => rgb(180, 180, 220),
            },
        ),
        TuiColor::Rgb(
            match theme.bg("ui.statusline"@) {
                Some(c) => c,
                None => rgb(30, 30, 50),
            },
        ),
    )
}

/// What the status bar draws, in the last row of the window.
pub open spec fn status_draws(app: App, size: Size, theme: Theme) -> Seq<Draw> {
    let (fg, bg) = status_colors(theme);
    let (leader, rest) = status_texts(app);
    let start = Pos {
        col_index: 0,
        row_index: (if size.row_height > 0 {
            size.row_height - 1
        } else {
            0
        }) as u16,
    };
    let bold = Some(bold_colored(fg, bg));
    let normal = Some(colored(fg, bg));
    seq![
        Draw::MoveToAbs(start),
        Draw::ResetColor,
        Draw::SetBgColor(bg),
        Draw::Paint { text: Seq::new(size.col_width as nat, |i: int| ' '), style: None },
        Draw::MoveToAbs(start),
        Draw::ApplyColors(bold),
        Draw::Paint { text: leader, style: bold },
        Draw::ResetColor,
        Draw::ApplyColors(normal),
        Draw::Paint { text: rest, style: normal },
        Draw::ResetColor,
    ]
}

/// The texts of the status bar.
pub fn status_text(state: &AppState) -> (r: (String, String))
    ensures
        (r.0@, r.1@) == status_texts(state@),
{
    if state.leader_active {
        let mut rest = String::new();
        add_hint(&mut rest, &state.keymap, Action::OpenFilePicker, ":Picker  ");
        add_hint(&mut rest, &state.keymap, Action::OpenTerminal, ":Term  ");
        add_hint(&mut rest, &state.keymap, Action::OpenThemePicker, ":Theme  ");
        add_hint(&mut rest, &state.keymap, Action::ClosePane, ":Close  ");
        add_hint(&mut rest, &state.keymap, Action::Quit, ":Quit  ");
        add_hint(&mut rest, &state.keymap, Action::FocusNext, ":Next  ");
        add_hint(&mut rest, &state.keymap, Action::FocusPrev, ":Prev  ");
        assert(rest@ =~= leader_hints(state.keymap@));
        rest.append(pane_action_hints("", "  ").as_str());
        rest.append("  Esc:Cancel");
        return (copy_of(" Leader "), rest);
    }
    let pane = match state.pane_manager.focused_window {
        Some(window) => {
            let on_terminal = matches!(window, Window::Terminal(_));
            if on_terminal && !state.terminal_grabbed {
                "Enter:grab  ↑↓PgUp/PgDn:scroll"
            } else {
                window.pane_key_hints()
            }
        },
        None => "",
    };
    let mut rest = pane_action_hints("Ctrl+", "  ");
    if crate::bytes::text_len(pane) != 0 {
        rest.append("  ");
        rest.append(pane);
    }
    let mut leader = copy_of(" ");
    leader.append(hint(&state.keymap.leader_key).as_str());
    leader.append(": Leader ");
    (leader, rest)
}

/// Draws the status bar.
pub fn render_status_bar(ops: &mut Vec<RenderOp>, size: Size, state: &AppState, theme: &HelixTheme)
    ensures
        draws(final(ops)@) == draws(old(ops)@) + status_draws(state@, size, theme@),
{
    let ghost before = draws(ops@);
    let bg = TuiColor::Rgb(
        match theme.ui_bg("ui.statusline") {
            Some(c) => c,
            None => RgbValue::new(30, 30, 50),
        },
    );
    let fg = TuiColor::Rgb(
        match theme.ui_fg("ui.statusline") {
            Some(c) => c,
            None => RgbValue::new(180, 180, 220),
        },
    );
    let bold = Some(TuiStyle::bold_of(fg, bg));
    let normal = Some(TuiStyle::of(fg, bg));
    let (leader, rest) = status_text(state);
    let start = Pos { col_index: 0, row_index: size.row_height.saturating_sub(1) };
    let ghost leader_text = leader@;
    let ghost rest_text = rest@;
    emit(ops, RenderOp::MoveToAbs(start));
    emit(ops, RenderOp::ResetColor);
    emit(ops, RenderOp::SetBgColor(bg));
    emit(ops, paint(spaces(size.col_width as usize), None));
    emit(ops, RenderOp::MoveToAbs(start));
    emit(ops, RenderOp::ApplyColors(bold));
    emit(ops, paint(leader, bold));
    emit(ops, RenderOp::ResetColor);
    emit(ops, RenderOp::ApplyColors(normal));
    emit(ops, paint(rest, normal));
    emit(ops, RenderOp::ResetColor);
    proof {
        assert((leader_text, rest_text) == status_texts(state@));
        assert(draws(ops@) =~= before + status_draws(state@, size, theme@));
    }
}

} // verus!
