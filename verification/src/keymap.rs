//! Configurable top-level keyboard shortcuts (the leader + global keymap).
//!
//! An [`Action`] names *what* a binding does, and a [`Keymap`] maps a [`KeyPress`] to an [`Action`]
//! per context (leader vs global).
//!
//! Slugs of the actions that can be bound: `leader`, `quit`, `focus-next`, `focus-prev`,
//! `open-file-picker`, `open-terminal`, `open-theme-picker`, `close-pane`, `resize-grow`,
//! `resize-shrink`, `move-pane-forward`, `move-pane-backward`.

use vstd::prelude::*;
use crate::bytes::same_text;
use crate::input::{Key, KeyPress, KeyState, ModifierKeysMask, SpecialKey};
use crate::number::{decimal, number_text};

verus! {

/// A semantic action a top-level key binding can trigger. `GrabTerminal` and `DismissLeader` cannot
/// be bound by the user (they track the leader key and Esc), so they have no slug.
#[derive(Clone, Copy, Debug, PartialEq, Eq, Structural)]
pub enum Action {
    Quit,
    FocusNext,
    FocusPrev,
    OpenFilePicker,
    OpenTerminal,
    OpenThemePicker,
    ClosePane,
    GrabTerminal,
    DismissLeader,
    ResizeGrow,
    ResizeShrink,
    MovePaneForward,
    MovePaneBackward,
}

/// The action with a slug.
pub open spec fn action_of(slug: Seq<char>) -> Option<Action> {
    if slug == "quit"@ {
        Some(Action::Quit)
    } else if slug == "focus-next"@ {
        Some(Action::FocusNext)
    } else if slug == "focus-prev"@ {
        Some(Action::FocusPrev)
    } else if slug == "open-file-picker"@ {
        Some(Action::OpenFilePicker)
    } else if slug == "open-terminal"@ {
        Some(Action::OpenTerminal)
    } else if slug == "open-theme-picker"@ {
        Some(Action::OpenThemePicker)
    } else if slug == "close-pane"@ {
        Some(Action::ClosePane)
    } else if slug == "resize-grow"@ {
        Some(Action::ResizeGrow)
    } else if slug == "resize-shrink"@ {
        Some(Action::ResizeShrink)
    } else if slug == "move-pane-forward"@ {
        Some(Action::MovePaneForward)
    } else if slug == "move-pane-backward"@ {
        Some(Action::MovePaneBackward)
    } else {
        None
    }
}

impl Action {
    /// Resolves a slug (e.g. `open-terminal`) to an action that can be bound.
    pub fn from_slug(slug: &str) -> (r: Option<Action>)
        ensures
            r == action_of(slug@),
    {
        if same_text(slug, "quit") {
            Some(Action::Quit)
        } else if same_text(slug, "focus-next") {
            Some(Action::FocusNext)
        } else if same_text(slug, "focus-prev") {
            Some(Action::FocusPrev)
        } else if same_text(slug, "open-file-picker") {
            Some(Action::OpenFilePicker)
        } else if same_text(slug, "open-terminal") {
            Some(Action::OpenTerminal)
        } else if same_text(slug, "open-theme-picker") {
            Some(Action::OpenThemePicker)
        } else if same_text(slug, "close-pane") {
            Some(Action::ClosePane)
        } else if same_text(slug, "resize-grow") {
            Some(Action::ResizeGrow)
        } else if same_text(slug, "resize-shrink") {
            Some(Action::ResizeShrink)
        } else if same_text(slug, "move-pane-forward") {
            Some(Action::MovePaneForward)
        } else if same_text(slug, "move-pane-backward") {
            Some(Action::MovePaneBackward)
        } else {
            None
        }
    }
}

/// A key that stands for a character, with no modifier key.
pub open spec fn plain(c: char) -> KeyPress {
    KeyPress::Plain { key: Key::Character(c) }
}

/// A special key, with no modifier key.
pub open spec fn special(key: SpecialKey) -> KeyPress {
    KeyPress::Plain { key: Key::SpecialKey(key) }
}

/// A special key with the control key.
pub open spec fn ctrl(key: SpecialKey) -> KeyPress {
    KeyPress::WithModifiers { key: Key::SpecialKey(key), mask: ModifierKeysMask::ctrl() }
}

/// A character with the alt key.
pub open spec fn alt(c: char) -> KeyPress {
    KeyPress::WithModifiers { key: Key::Character(c), mask: ModifierKeysMask::alt() }
}

/// A key that stands for a character, with no modifier key.
pub fn plain_char(c: char) -> (r: KeyPress)
    ensures
        r == plain(c),
{
    KeyPress::Plain { key: Key::Character(c) }
}

/// A character with the alt key.
pub fn alt_char(c: char) -> (r: KeyPress)
    ensures
        r == alt(c),
{
    KeyPress::WithModifiers {
        key: Key::Character(c),
        mask: ModifierKeysMask {
            shift_key_state: KeyState::NotPressed,
            ctrl_key_state: KeyState::NotPressed,
            alt_key_state: KeyState::Pressed,
        },
    }
}

/// A special key, with no modifier key.
pub fn plain_special(sk: SpecialKey) -> (r: KeyPress)
    ensures
        r == special(sk),
{
    KeyPress::Plain { key: Key::SpecialKey(sk) }
}

/// A special key with the control key.
pub fn ctrl_special(sk: SpecialKey) -> (r: KeyPress)
    ensures
        r == ctrl(sk),
{
    KeyPress::WithModifiers {
        key: Key::SpecialKey(sk),
        mask: ModifierKeysMask {
            shift_key_state: KeyState::NotPressed,
            ctrl_key_state: KeyState::Pressed,
            alt_key_state: KeyState::NotPressed,
        },
    }
}

/// The top-level keymap: the leader key plus a binding table for each context.
#[derive(Debug)]
pub struct Keymap {
    /// Key that activates leader mode (default: `` alt+` ``). Pressing it again while a terminal
    /// pane is focused grabs that terminal ([`Action::GrabTerminal`]).
    pub leader_key: KeyPress,
    /// Bindings active while leader mode is engaged.
    pub leader: Vec<(KeyPress, Action)>,
    /// Bindings active outside leader mode.
    pub global: Vec<(KeyPress, Action)>,
}

/// What a [`Keymap`] stands for.
#[verifier::ext_equal]
pub struct Bindings {
    pub leader_key: KeyPress,
    pub leader: Seq<(KeyPress, Action)>,
    pub global: Seq<(KeyPress, Action)>,
}

impl View for Keymap {
    type V = Bindings;

    open spec fn view(&self) -> Bindings {
        Bindings { leader_key: self.leader_key, leader: self.leader@, global: self.global@ }
    }
}

/// What a key is bound to: the action of its first entry from `i` on.
pub open spec fn bound_action(table: Seq<(KeyPress, Action)>, key: KeyPress, i: int) -> Option<
    Action,
>
    decreases table.len() - i,
{
    if i >= table.len() {
        None
    } else if table[i].0 == key {
        Some(table[i].1)
    } else {
        bound_action(table, key, i + 1)
    }
}

/// What an action is bound to: the key of its first entry from `i` on.
pub open spec fn bound_key(table: Seq<(KeyPress, Action)>, action: Action, i: int) -> Option<
    KeyPress,
>
    decreases table.len() - i,
{
    if i >= table.len() {
        None
    } else if table[i].1 == action {
        Some(table[i].0)
    } else {
        bound_key(table, action, i + 1)
    }
}

/// A table with another key for an action.
pub open spec fn rebound(table: Seq<(KeyPress, Action)>, action: Action, key: KeyPress) -> Seq<
    (KeyPress, Action),
> {
    Seq::new(
        table.len(),
        |i: int|
            if table[i].1 == action {
                (key, action)
            } else {
                table[i]
            },
    )
}

impl Bindings {
    /// The built-in bindings.
    pub open spec fn built_in() -> Bindings {
        Bindings {
            leader_key: alt('`'),
            leader: seq![
                (plain('f'), Action::OpenFilePicker),
                (plain('t'), Action::OpenTerminal),
                (plain('T'), Action::OpenThemePicker),
                (plain('q'), Action::Quit),
                (plain('x'), Action::ClosePane),
                (special(SpecialKey::Tab), Action::FocusNext),
                (special(SpecialKey::BackTab), Action::FocusPrev),
                (special(SpecialKey::Esc), Action::DismissLeader),
            ],
            global: seq![
                (special(SpecialKey::Tab), Action::FocusNext),
                (special(SpecialKey::BackTab), Action::FocusPrev),
                (ctrl(SpecialKey::Down), Action::ResizeGrow),
                (ctrl(SpecialKey::Up), Action::ResizeShrink),
                (ctrl(SpecialKey::Left), Action::MovePaneForward),
                (ctrl(SpecialKey::Right), Action::MovePaneBackward),
            ],
        }
    }

    /// An action has another key, in both contexts.
    pub open spec fn rebound(self, action: Action, key: KeyPress) -> Bindings {
        Bindings {
            leader: rebound(self.leader, action, key),
            global: rebound(self.global, action, key),
            ..self
        }
    }

    /// One binding from the configuration: what has the given slug gets another key, where the
    /// key's spelling stands for one.
    pub open spec fn overridden(
        self,
        slug: Seq<char>,
        spec_text: Seq<char>,
        key: Result<KeyPress, Seq<char>>,
    ) -> Result<Bindings, Seq<char>> {
        match key {
            Err(e) => Err("invalid key '"@ + spec_text + "' for '"@ + slug + "': "@ + e),
            Ok(key) => if slug == "leader"@ {
                Ok(Bindings { leader_key: key, ..self })
            } else {
                match action_of(slug) {
                    None => Err("unknown keybinding action '"@ + slug + "'"@),
                    Some(action) => Ok(self.rebound(action, key)),
                }
            },
        }
    }
}

/// What a key's spelling stands for, or what is wrong with it.
pub open spec fn key_result(r: Result<KeyPress, String>) -> Result<KeyPress, Seq<char>> {
    match r {
        Ok(key) => Ok(key),
        Err(e) => Err(e@),
    }
}

/// The bindings from the configuration from the `i`-th on, one after another, up to the first that
/// is wrong: the bindings that they lead to, and what is wrong.
pub open spec fn all_overridden(
    b: Bindings,
    binds: Seq<(String, String)>,
    keys: Seq<Result<KeyPress, String>>,
    i: int,
) -> (Bindings, Option<Seq<char>>)
    decreases binds.len() - i,
{
    if i >= binds.len() {
        (b, None)
    } else {
        match b.overridden(binds[i].0@, binds[i].1@, key_result(keys[i])) {
            Err(e) => (b, Some(e)),
            Ok(next) => all_overridden(next, binds, keys, i + 1),
        }
    }
}

impl Default for Keymap {
    /// The built-in bindings.
    fn default() -> (r: Self)
        ensures
            r@ == Bindings::built_in(),
    {
        let r = Keymap {
            leader_key: alt_char('`'),
            leader: vec![
                (plain_char('f'), Action::OpenFilePicker),
                (plain_char('t'), Action::OpenTerminal),
                (plain_char('T'), Action::OpenThemePicker),
                (plain_char('q'), Action::Quit),
                (plain_char('x'), Action::ClosePane),
                (plain_special(SpecialKey::Tab), Action::FocusNext),
                (plain_special(SpecialKey::BackTab), Action::FocusPrev),
                (plain_special(SpecialKey::Esc), Action::DismissLeader),
            ],
            global: vec![
                (plain_special(SpecialKey::Tab), Action::FocusNext),
                (plain_special(SpecialKey::BackTab), Action::FocusPrev),
                (ctrl_special(SpecialKey::Down), Action::ResizeGrow),
                (ctrl_special(SpecialKey::Up), Action::ResizeShrink),
                (ctrl_special(SpecialKey::Left), Action::MovePaneForward),
                (ctrl_special(SpecialKey::Right), Action::MovePaneBackward),
            ],
        };
        assert(r@ =~= Bindings::built_in());
        r
    }
}

/// The action that a table binds a key to.
fn find_action(table: &Vec<(KeyPress, Action)>, kp: &KeyPress) -> (r: Option<Action>)
    ensures
        r == bound_action(table@, *kp, 0),
{
    let mut i: usize = 0;
    while i < table.len()
        invariant
            i <= table@.len(),
            bound_action(table@, *kp, 0) == bound_action(table@, *kp, i as int),
        decreases table@.len() - i,
    {
        if table[i].0 == *kp {
            return Some(table[i].1);
        }
        i += 1;
    }
    None
}

/// The key that a table binds to an action.
fn find_key(table: &Vec<(KeyPress, Action)>, action: Action) -> (r: Option<KeyPress>)
    ensures
        r == bound_key(table@, action, 0),
{
    let mut i: usize = 0;
    while i < table.len()
        invariant
            i <= table@.len(),
            bound_key(table@, action, 0) == bound_key(table@, action, i as int),
        decreases table@.len() - i,
    {
        if table[i].1 == action {
            return Some(table[i].0);
        }
        i += 1;
    }
    None
}

/// Gives an action of a table another key.
fn rebind(table: &mut Vec<(KeyPress, Action)>, action: Action, key: KeyPress)
    ensures
        final(table)@ == rebound(old(table)@, action, key),
{
    let ghost before = table@;
    let mut i: usize = 0;
    while i < table.len()
        invariant
            i <= table@.len(),
            table@.len() == before.len(),
            forall|j: int| 0 <= j < i ==> table@[j] == rebound(before, action, key)[j],
            forall|j: int| i <= j < table@.len() ==> table@[j] == before[j],
        decreases table@.len() - i,
    {
        if table[i].1 == action {
            table[i] = (key, action);
        }
        i += 1;
    }
    assert(table@ =~= rebound(before, action, key));
}

impl Keymap {
    /// Resolves a key pressed while leader mode is engaged. The leader key itself maps to
    /// [`Action::GrabTerminal`] (the caller applies the "terminal focused" guard).
    pub fn leader_action(&self, kp: &KeyPress) -> (r: Option<Action>)
        ensures
            r == if *kp == self@.leader_key {
                Some(Action::GrabTerminal)
            } else {
                bound_action(self@.leader, *kp, 0)
            },
    {
        if *kp == self.leader_key {
            return Some(Action::GrabTerminal);
        }
        find_action(&self.leader, kp)
    }

    /// Resolves a key pressed outside leader mode.
    pub fn global_action(&self, kp: &KeyPress) -> (r: Option<Action>)
        ensures
            r == bound_action(self@.global, *kp, 0),
    {
        find_action(&self.global, kp)
    }

    /// The key bound to `action` in leader mode (for status-bar hints).
    pub fn leader_key_for(&self, action: Action) -> (r: Option<KeyPress>)
        ensures
            r == bound_key(self@.leader, action, 0),
    {
        find_key(&self.leader, action)
    }

    /// The key bound to `action` outside leader mode (for status-bar hints).
    pub fn global_key_for(&self, action: Action) -> (r: Option<KeyPress>)
        ensures
            r == bound_key(self@.global, action, 0),
    {
        find_key(&self.global, action)
    }

    /// Applies `(action-slug, key-spec)` overrides from the configuration on top of the bindings.
    /// `keys` says what each key-spec stands for, or what is wrong with it. The special slug
    /// `leader` rebinds [`Keymap::leader_key`]; every other slug rebinds its action in whichever
    /// context table(s) it appears (so `focus-next` updates both leader and global `Tab`).
    ///
    /// # Errors
    ///
    /// Returns a descriptive message on an unknown slug or a key-spec that stands for no key. The
    /// overrides before it stay applied.
    pub fn apply_overrides(
        &mut self,
        binds: &Vec<(String, String)>,
        keys: &Vec<Result<KeyPress, String>>,
    ) -> (r: Result<(), String>)
        requires
            keys@.len() == binds@.len(),
        ensures
            ({
                let (b, e) = all_overridden(old(self)@, binds@, keys@, 0);
                &&& final(self)@ == b
                &&& match r {
                    Ok(_) => e is None,
                    Err(text) => e == Some(text@),
                }
            }),
    {
        let ghost goal = all_overridden(self@, binds@, keys@, 0);
        let mut i: usize = 0;
        while i < binds.len()
            invariant
                i <= binds@.len(),
                keys@.len() == binds@.len(),
                goal == all_overridden(old(self)@, binds@, keys@, 0),
                goal == all_overridden(self@, binds@, keys@, i as int),
            decreases binds@.len() - i,
        {
            let slug = binds[i].0.as_str();
            let key = match &keys[i] {
                Ok(key) => *key,
                Err(e) => {
                    let mut text = String::new();
                    text.append("invalid key '");
                    text.append(binds[i].1.as_str());
                    text.append("' for '");
                    text.append(slug);
                    text.append("': ");
                    text.append(e.as_str());
                    assert(text@ =~= "invalid key '"@ + binds@[i as int].1@ + "' for '"@ + slug@
                        + "': "@ + e@);
                    return Err(text);
                },
            };
            if same_text(slug, "leader") {
                self.leader_key = key;
            } else {
                match Action::from_slug(slug) {
                    None => {
                        let mut text = String::new();
                        text.append("unknown keybinding action '");
                        text.append(slug);
                        text.append("'");
                        assert(text@ =~= "unknown keybinding action '"@ + slug@ + "'"@);
                        return Err(text);
                    },
                    Some(action) => {
                        rebind(&mut self.leader, action, key);
                        rebind(&mut self.global, action, key);
                    },
                }
            }
            i += 1;
        }
        Ok(())
    }
}

/// How the modifier keys are written before a key.
pub open spec fn modifier_label(mask: ModifierKeysMask) -> Seq<char> {
    (if mask.ctrl_key_state == KeyState::Pressed {
        "Ctrl+"@
    } else {
        Seq::empty()
    }) + (if mask.alt_key_state == KeyState::Pressed {
        "Alt+"@
    } else {
        Seq::empty()
    }) + (if mask.shift_key_state == KeyState::Pressed {
        "Shift+"@
    } else {
        Seq::empty()
    })
}

/// How a special key is written.
pub open spec fn special_text(key: SpecialKey) -> Seq<char> {
    match key {
        SpecialKey::Up => "↑"@,
        SpecialKey::Down => "↓"@,
        SpecialKey::Left => "←"@,
        SpecialKey::Right => "→"@,
        SpecialKey::Tab => "Tab"@,
        SpecialKey::BackTab => "Shift+Tab"@,
        SpecialKey::Enter => "Enter"@,
        SpecialKey::Esc => "Esc"@,
        SpecialKey::Backspace => "Backspace"@,
        SpecialKey::Delete => "Delete"@,
        SpecialKey::Insert => "Insert"@,
        SpecialKey::Home => "Home"@,
        SpecialKey::End => "End"@,
        SpecialKey::PageUp => "PgUp"@,
        SpecialKey::PageDown => "PgDn"@,
    }
}

/// How a key is written.
pub open spec fn key_label(key: Key) -> Seq<char> {
    match key {
        Key::Character(c) => if c == ' ' {
            "Space"@
        } else {
            seq![c]
        },
        Key::SpecialKey(key) => special_text(key),
        Key::FunctionKey(n) => "F"@ + decimal(n as int),
        Key::KittyKeyboardProtocol(_) => seq!['?'],
    }
}

/// How a key press is written in the status bar.
pub open spec fn hint_of(kp: KeyPress) -> Seq<char> {
    match kp {
        KeyPress::Plain { key } => key_label(key),
        KeyPress::WithModifiers { key, mask } => modifier_label(mask) + key_label(key),
    }
}

/// Renders a [`KeyPress`] as a compact, human-friendly label for the status bar, e.g. `Ctrl+↓`,
/// `Shift+Tab`, `` Alt+` ``, `q`.
pub fn hint(kp: &KeyPress) -> (r: String)
    ensures
        r@ == hint_of(*kp),
{
    let (key, mask) = match kp {
        KeyPress::Plain { key } => (*key, None),
        KeyPress::WithModifiers { key, mask } => (*key, Some(*mask)),
    };
    let mut out = String::new();
    if let Some(m) = mask {
        if m.ctrl_key_state == KeyState::Pressed {
            out.append("Ctrl+");
        }
        if m.alt_key_state == KeyState::Pressed {
            out.append("Alt+");
        }
        if m.shift_key_state == KeyState::Pressed {
            out.append("Shift+");
        }
        assert(out@ =~= modifier_label(m));
    }
    let ghost front = out@;
    match key {
        Key::Character(c) => {
            if c == ' ' {
                out.append("Space");
            } else {
                out.push(c);
            }
        },
        Key::SpecialKey(sk) => out.append(special_label(sk)),
        Key::FunctionKey(n) => {
            out.append("F");
            out.append(number_text(n as usize).as_str());
        },
        Key::KittyKeyboardProtocol(_) => out.push('?'),
    }
    assert(out@ =~= front + key_label(key));
    assert(Seq::<char>::empty() + key_label(key) =~= key_label(key));
    out
}

/// How a special key is written.
fn special_label(sk: SpecialKey) -> (r: &'static str)
    ensures
        r@ == special_text(sk),
{
    match sk {
        SpecialKey::Up => "↑",
        SpecialKey::Down => "↓",
        SpecialKey::Left => "←",
        SpecialKey::Right => "→",
        SpecialKey::Tab => "Tab",
        SpecialKey::BackTab => "Shift+Tab",
        SpecialKey::Enter => "Enter",
        SpecialKey::Esc => "Esc",
        SpecialKey::Backspace => "Backspace",
        SpecialKey::Delete => "Delete",
        SpecialKey::Insert => "Insert",
        SpecialKey::Home => "Home",
        SpecialKey::End => "End",
        SpecialKey::PageUp => "PgUp",
        SpecialKey::PageDown => "PgDn",
    }
}

/// An action that a table holds has the key that it was bound to last.
pub proof fn law_hints_follow_bindings(
    table: Seq<(KeyPress, Action)>,
    action: Action,
    key: KeyPress,
    i: int,
)
    requires
        0 <= i,
    ensures
        bound_key(rebound(table, action, key), action, i) == if bound_key(table, action, i) is Some {
            Some(key)
        } else {
            None
        },
    decreases table.len() - i,
{
    if i < table.len() {
        law_hints_follow_bindings(table, action, key, i + 1);
    }
}

/// Binding one action leaves the keys of the others as they are.
pub proof fn law_other_actions_keep_keys(
    table: Seq<(KeyPress, Action)>,
    action: Action,
    key: KeyPress,
    other: Action,
    i: int,
)
    requires
        0 <= i,
        other != action,
    ensures
        bound_key(rebound(table, action, key), other, i) == bound_key(table, other, i),
    decreases table.len() - i,
{
    if i < table.len() {
        law_other_actions_keep_keys(table, action, key, other, i + 1);
    }
}

/// A key that was bound to nothing triggers the action that it is bound to, in a table that holds
/// the action.
pub proof fn law_bound_key_triggers_action(
    table: Seq<(KeyPress, Action)>,
    action: Action,
    key: KeyPress,
    i: int,
)
    requires
        0 <= i,
        bound_action(table, key, i) is None,
        bound_key(table, action, i) is Some,
    ensures
        bound_action(rebound(table, action, key), key, i) == Some(action),
    decreases table.len() - i,
{
    if i < table.len() {
        if table[i].1 != action {
            law_bound_key_triggers_action(table, action, key, i + 1);
        }
    }
}

} // verus!
