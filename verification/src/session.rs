//! Sessions: the windows that come back when the program is started again.

use vstd::prelude::*;
use crate::keyed::{KeyedMap, MapKey};
use crate::loader::FileKey;
use crate::pane_manager::{PaneSize, Window};
use crate::paths::{path_below, path_joined, same_place, strip_prefix};
use crate::preview::copy_ranges;
use crate::state::{App, AppState, path_for_file_key};
use crate::text::copy_of;
use crate::theme::optional_text;

verus! {

/// The version of session files.
pub const SESSION_VERSION: u32 = 2;

/// The relative height of a pane, as it is saved.
#[derive(Clone, Copy, Debug, PartialEq, Eq, Structural)]
pub enum SerializablePaneSize {
    Full,
    Half,
    Third,
    Quarter,
}

/// The relative height of a pane, as it is saved.
pub open spec fn saved_size(size: PaneSize) -> SerializablePaneSize {
    match size {
        PaneSize::Full => SerializablePaneSize::Full,
        PaneSize::Half => SerializablePaneSize::Half,
        PaneSize::Third => SerializablePaneSize::Third,
        PaneSize::Quarter => SerializablePaneSize::Quarter,
    }
}

/// The relative height that was saved.
pub open spec fn read_size(size: SerializablePaneSize) -> PaneSize {
    match size {
        SerializablePaneSize::Full => PaneSize::Full,
        SerializablePaneSize::Half => PaneSize::Half,
        SerializablePaneSize::Third => PaneSize::Third,
        SerializablePaneSize::Quarter => PaneSize::Quarter,
    }
}

impl From<PaneSize> for SerializablePaneSize {
    fn from(value: PaneSize) -> (r: Self) {
        match value {
            PaneSize::Full => SerializablePaneSize::Full,
            PaneSize::Half => SerializablePaneSize::Half,
            PaneSize::Third => SerializablePaneSize::Third,
            PaneSize::Quarter => SerializablePaneSize::Quarter,
        }
    }
}

impl vstd::std_specs::convert::FromSpecImpl<PaneSize> for SerializablePaneSize {
    open spec fn obeys_from_spec() -> bool {
        true
    }

    open spec fn from_spec(value: PaneSize) -> SerializablePaneSize {
        saved_size(value)
    }
}

impl From<SerializablePaneSize> for PaneSize {
    fn from(value: SerializablePaneSize) -> (r: Self) {
        match value {
            SerializablePaneSize::Full => PaneSize::Full,
            SerializablePaneSize::Half => PaneSize::Half,
            SerializablePaneSize::Third => PaneSize::Third,
            SerializablePaneSize::Quarter => PaneSize::Quarter,
        }
    }
}

impl vstd::std_specs::convert::FromSpecImpl<SerializablePaneSize> for PaneSize {
    open spec fn obeys_from_spec() -> bool {
        true
    }

    open spec fn from_spec(value: SerializablePaneSize) -> PaneSize {
        read_size(value)
    }
}

/// A size that is saved is the size that is read.
pub proof fn law_saved_size_reads_back(size: PaneSize)
    ensures
        read_size(saved_size(size)) == size,
{
}

/// A window, as it is saved.
#[derive(Debug)]
pub enum PaneEntry {
    FilePreview { path: String, scroll: usize, pane_size: SerializablePaneSize },
    Terminal {
        command: Option<String>,
        cwd: String,
        is_command_pane: bool,
        pane_size: SerializablePaneSize,
    },
}

/// What a [`PaneEntry`] stands for.
#[verifier::ext_equal]
pub enum Entry {
    FilePreview { path: Seq<char>, scroll: usize, pane_size: SerializablePaneSize },
    Terminal {
        command: Option<Seq<char>>,
        cwd: Seq<char>,
        is_command_pane: bool,
        pane_size: SerializablePaneSize,
    },
}

impl View for PaneEntry {
    type V = Entry;

    open spec fn view(&self) -> Entry {
        match *self {
            PaneEntry::FilePreview { path, scroll, pane_size } => Entry::FilePreview {
                path: path@,
                scroll,
                pane_size,
            },
            PaneEntry::Terminal { command, cwd, is_command_pane, pane_size } => Entry::Terminal {
                command: optional_text(command),
                cwd: cwd@,
                is_command_pane,
                pane_size,
            },
        }
    }
}

/// What some saved windows stand for.
pub open spec fn entries_of(panes: Seq<PaneEntry>) -> Seq<Entry> {
    Seq::new(panes.len(), |i: int| panes[i]@)
}

/// A session.
pub struct Session {
    pub version: u32,
    pub repo_root: String,
    pub panes: Vec<PaneEntry>,
    pub highlight_ranges: KeyedMap<String, Vec<(usize, usize)>>,
}

/// What a window is saved as, or `None` where it is not. The terminal of an editor is saved as the
/// preview of its file, so that the preview comes back.
pub open spec fn entry_of(app: App, window: Window) -> Option<Entry> {
    let state = app.panes.state_of(window);
    match window {
        Window::FilePreview(key) => match preview_path(app, key) {
            Some(rel) => Some(
                Entry::FilePreview {
                    path: rel,
                    scroll: state.scroll,
                    pane_size: saved_size(state.pane_size),
                },
            ),
            None => None,
        },
        Window::Terminal(id) => match edited_path(app, id) {
            Some(rel) => Some(
                Entry::FilePreview {
                    path: rel,
                    scroll: 0,
                    pane_size: saved_size(state.pane_size),
                },
            ),
            None => if app.terminals.contains_key(id) && !app.terminals[id].exited {
                let t = app.terminals[id];
                Some(
                    Entry::Terminal {
                        command: t.command,
                        cwd: t.cwd,
                        is_command_pane: t.is_command_pane,
                        pane_size: saved_size(state.pane_size),
                    },
                )
            } else {
                None
            },
        },
        _ => None,
    }
}

/// The path of a file, from the root on, where it is in the list and lies below the root.
pub open spec fn preview_path(app: App, key: FileKey) -> Option<Seq<char>> {
    if key.0 < app.files.len() {
        path_below(app.files[key.0 as int].path, app.root)
    } else {
        None
    }
}

/// The path of the file that is edited in a terminal, from the root on.
pub open spec fn edited_path(app: App, id: usize) -> Option<Seq<char>> {
    if app.terminal_to_preview.contains_key(id) {
        preview_path(app, app.terminal_to_preview[id])
    } else {
        None
    }
}

/// What the first `n` windows are saved as.
pub open spec fn saved_panes(app: App, n: int) -> Seq<Entry>
    decreases n,
{
    if n <= 0 {
        Seq::empty()
    } else {
        match entry_of(app, app.panes.stack[n - 1]) {
            Some(entry) => saved_panes(app, n - 1).push(entry),
            None => saved_panes(app, n - 1),
        }
    }
}

/// Whether the highlight ranges of a file are saved under a path.
pub open spec fn saved_under(app: App, key: FileKey, rel: Seq<char>) -> bool {
    app.highlights.contains_key(key) && preview_path(app, key) == Some(rel)
}

/// What the saved highlight ranges stand for.
pub open spec fn saved_ranges(m: Map<Seq<char>, Vec<(usize, usize)>>) -> Map<
    Seq<char>,
    Seq<(usize, usize)>,
> {
    Map::new(|rel: Seq<char>| m.contains_key(rel), |rel: Seq<char>| m[rel]@)
}

/// Whether saved highlight ranges are those of a state: every file in the list and below the root is
/// saved under its path, and nothing else is. Of two files with the same path either may be.
pub open spec fn ranges_of(app: App, saved: Map<Seq<char>, Seq<(usize, usize)>>) -> bool {
    &&& forall|rel: Seq<char>|
        #[trigger] saved.contains_key(rel) ==> exists|key: FileKey|
            #[trigger] saved_under(app, key, rel) && saved[rel] == app.highlights[key]
    &&& forall|key: FileKey, rel: Seq<char>|
        #[trigger] saved_under(app, key, rel) ==> saved.contains_key(rel)
}

/// The file that a window is saved with, if any.
pub open spec fn saved_key(app: App, window: Window) -> Option<FileKey> {
    match window {
        Window::FilePreview(key) => Some(key),
        Window::Terminal(id) => if app.terminal_to_preview.contains_key(id) {
            Some(app.terminal_to_preview[id])
        } else {
            None
        },
        _ => None,
    }
}

/// Whether the path that a file is saved under leads back to the file.
pub open spec fn leads_back(app: App, key: FileKey) -> bool {
    preview_path(app, key) matches Some(rel) ==> same_place(
        path_joined(app.root, rel),
        app.files[key.0 as int].path,
    )
}

/// Whether the path that a window is saved under leads back to its file.
pub open spec fn window_leads_back(app: App, window: Window) -> bool {
    saved_key(app, window) matches Some(key) ==> leads_back(app, key)
}

/// What the result of saving a window stands for.
pub open spec fn optional_entry(e: Option<PaneEntry>) -> Option<Entry> {
    match e {
        Some(e) => Some(e@),
        None => None,
    }
}

/// The path of a file, from the root on, where it is in the list and lies below the root.
fn saved_path(state: &AppState, key: FileKey) -> (r: Option<String>)
    ensures
        optional_text(r) == preview_path(state@, key),
        leads_back(state@, key),
{
    match path_for_file_key(&state.files, key) {
        Some(path) => strip_prefix(path, state.root.as_str()),
        None => None,
    }
}

/// What a window is saved as.
fn pane_entry_from_window(state: &AppState, window: &Window) -> (r: Option<PaneEntry>)
    ensures
        optional_entry(r) == entry_of(state@, *window),
        window_leads_back(state@, *window),
{
    let window_state = state.pane_manager.window_state(window);
    let pane_size = SerializablePaneSize::from(window_state.pane_size);
    match window {
        Window::FilePreview(key) => match saved_path(state, *key) {
            Some(path) => Some(
                PaneEntry::FilePreview { path, scroll: window_state.scroll, pane_size },
            ),
            None => None,
        },
        Window::FileNamePicker | Window::ThemePicker => None,
        Window::Terminal(id) => {
            if let Some(key) = state.terminal_to_preview.get(id) {
                if let Some(path) = saved_path(state, *key) {
                    return Some(PaneEntry::FilePreview { path, scroll: 0, pane_size });
                }
            }
            match state.terminal_panes.get(id) {
                Some(pane) => {
                    assert(state@.terminals[*id] == pane@);
                    if pane.exited {
                        return None;
                    }
                    let command = match &pane.command {
                        Some(command) => Some(copy_of(command.as_str())),
                        None => None,
                    };
                    Some(
                        PaneEntry::Terminal {
                            command,
                            cwd: copy_of(pane.cwd.as_str()),
                            is_command_pane: pane.is_command_pane,
                            pane_size,
                        },
                    )
                },
                None => None,
            }
        },
    }
}

/// The highlight ranges of a state, as they are saved.
fn save_ranges(state: &AppState) -> (r: KeyedMap<String, Vec<(usize, usize)>>)
    ensures
        ranges_of(state@, saved_ranges(r@)),
        forall|key: FileKey|
            state@.highlights.contains_key(key) ==> #[trigger] leads_back(state@, key),
{
    let ghost app = state@;
    let ghost order = state.highlight_ranges.order();
    let mut out: KeyedMap<String, Vec<(usize, usize)>> = KeyedMap::new();
    let n: usize = state.highlight_ranges.len();
    let mut i: usize = 0;
    while i < n
        invariant
            i <= n == order.len(),
            app == state@,
            order == state.highlight_ranges.order(),
            state.highlight_ranges@ == crate::keyed::entries_map(order),
            forall|rel: Seq<char>| #[trigger]
                out@.contains_key(rel) ==> exists|key: FileKey| #[trigger]
                    saved_under(app, key, rel) && out@[rel]@ == app.highlights[key],
            forall|j: int, rel: Seq<char>|
                0 <= j < i && #[trigger] saved_under(app, order[j].0, rel)
                    ==> out@.contains_key(rel),
            forall|j: int| 0 <= j < i ==> leads_back(app, (#[trigger] order[j]).0),
        decreases n - i,
    {
        let ghost so_far = out@;
        let (key, ranges) = state.highlight_ranges.entry_at(i);
        assert(app.highlights.contains_key(*key) && app.highlights[*key] == ranges@);
        match saved_path(state, *key) {
            Some(rel) => {
                let ghost text = rel@;
                out.insert(rel, copy_ranges(ranges));
                proof {
                    assert(saved_under(app, *key, text));
                    assert(out@ =~= so_far.insert(text, out@[text]));
                    assert forall|rel: Seq<char>| #[trigger]
                        out@.contains_key(rel) implies exists|key: FileKey| #[trigger]
                        saved_under(app, key, rel) && out@[rel]@ == app.highlights[key] by {
                        if rel == text {
                            assert(saved_under(app, *key, rel));
                        } else {
                            assert(so_far.contains_key(rel));
                        }
                    }
                }
            },
            None => {},
        }
        i += 1;
    }
    proof {
        let saved = saved_ranges(out@);
        assert forall|key: FileKey, rel: Seq<char>| #[trigger]
            saved_under(app, key, rel) implies saved.contains_key(rel) by {
            crate::keyed::lemma_lookup_some(order, key);
            let j = choose|j: int| 0 <= j < order.len() && order[j].0.id() == key;
            assert(order[j].0 == key);
            assert(saved_under(app, order[j].0, rel));
        }
        assert forall|rel: Seq<char>| #[trigger]
            saved.contains_key(rel) implies exists|key: FileKey| #[trigger]
            saved_under(app, key, rel) && saved[rel] == app.highlights[key] by {
            assert(out@.contains_key(rel));
            let key = choose|key: FileKey| #[trigger]
                saved_under(app, key, rel) && out@[rel]@ == app.highlights[key];
            assert(saved_under(app, key, rel) && saved[rel] == app.highlights[key]);
        }
        assert forall|key: FileKey| app.highlights.contains_key(key) implies #[trigger] leads_back(
            app,
            key,
        ) by {
            crate::keyed::lemma_lookup_some(order, key);
            let j = choose|j: int| 0 <= j < order.len() && order[j].0.id() == key;
            assert(order[j].0 == key);
        }
    }
    out
}

impl Session {
    /// The session of a state. The windows keep their order; the pickers, terminals whose program
    /// has ended and files that do not lie below the root are left out.
    pub fn from_state(state: &AppState) -> (r: Self)
        ensures
            r.version == SESSION_VERSION,
            r.repo_root@ == state@.root,
            entries_of(r.panes@) == saved_panes(state@, state@.panes.stack.len() as int),
            ranges_of(state@, saved_ranges(r.highlight_ranges@)),
            forall|i: int|
                0 <= i < state@.panes.stack.len() ==> window_leads_back(
                    state@,
                    #[trigger] state@.panes.stack[i],
                ),
            forall|key: FileKey|
                state@.highlights.contains_key(key) ==> #[trigger] leads_back(state@, key),
    {
        let ghost app = state@;
        let ghost stack = app.panes.stack;
        let mut panes: Vec<PaneEntry> = Vec::new();
        assert(entries_of(panes@) =~= saved_panes(app, 0));
        let mut i: usize = 0;
        while i < state.pane_manager.window_stack.len()
            invariant
                i <= state.pane_manager.window_stack@.len(),
                app == state@,
                stack == state.pane_manager.window_stack@,
                stack == app.panes.stack,
                entries_of(panes@) == saved_panes(app, i as int),
                forall|j: int|
                    0 <= j < i ==> window_leads_back(app, #[trigger] stack[j]),
            decreases state.pane_manager.window_stack@.len() - i,
        {
            let ghost so_far = panes@;
            if let Some(entry) = pane_entry_from_window(state, &state.pane_manager.window_stack[i]) {
                panes.push(entry);
                assert(entries_of(panes@) =~= entries_of(so_far).push(entry@));
            }
            i += 1;
        }
        Session {
            version: SESSION_VERSION,
            repo_root: copy_of(state.root.as_str()),
            panes,
            highlight_ranges: save_ranges(state),
        }
    }
}

} // verus!
