//! How a session is put into effect.

use vstd::prelude::*;
use crate::file_name_picker::{FileNamePickerComponent, open_results, query_results};
use crate::fuzzy_picker::Picker;
use crate::keyed::{KeyedMap, MapKey};
use crate::loader::FileKey;
use crate::pane_manager::{PaneSize, Panes, Window, WindowState, position, valid_stack};
use crate::paths::{is_before, join, path_joined, path_less, same_path, same_place};
use crate::preview::copy_ranges;
use crate::session::{Entry, PaneEntry, Session, entries_of, read_size, saved_ranges};
use crate::state::{
    App, AppState, File, LoadedFile, Restore, TerminalRestoreInfo, file_key_for_path,
    file_with_path, files_of, highlights_of, lemma_file_with_path, restores_of,
};
use crate::text::{copy_of, texts};

verus! {

/// Whether one of some paths leads to the same place as another.
pub open spec fn holds_place(list: Seq<Seq<char>>, path: Seq<char>) -> bool {
    exists|i: int| 0 <= i < list.len() && same_place(#[trigger] list[i], path)
}

/// Where a path goes in a list that is in order: before the first from `i` on that comes after it.
pub open spec fn place_for(list: Seq<Seq<char>>, path: Seq<char>, i: int) -> int
    decreases list.len() - i,
{
    if i >= list.len() {
        list.len() as int
    } else if path_less(path, list[i]) {
        i
    } else {
        place_for(list, path, i + 1)
    }
}

/// A list in order, with one path more, unless it holds the path already.
pub open spec fn with_path(list: Seq<Seq<char>>, path: Seq<char>) -> Seq<Seq<char>> {
    if holds_place(list, path) {
        list
    } else {
        list.insert(place_for(list, path, 0), path)
    }
}

/// The paths of the files that the first `n` windows show and that are not in the list of files,
/// in order, each place once.
pub open spec fn missing_paths(
    panes: Seq<Entry>,
    root: Seq<char>,
    files: Seq<File>,
    n: int,
) -> Seq<Seq<char>>
    decreases n,
{
    if n <= 0 {
        Seq::empty()
    } else {
        let before = missing_paths(panes, root, files, n - 1);
        match panes[n - 1] {
            Entry::FilePreview { path, .. } => if file_with_path(
                files,
                path_joined(root, path),
                0,
            ) is None {
                with_path(before, path_joined(root, path))
            } else {
                before
            },
            Entry::Terminal { .. } => before,
        }
    }
}

/// A list of files with files at its end that are not there.
pub open spec fn with_stubs(files: Seq<File>, missing: Seq<Seq<char>>) -> Seq<File> {
    files + Seq::new(missing.len(), |i: int| File::missing(missing[i]))
}

/// What has come back so far.
#[verifier::ext_equal]
pub struct Restoring {
    pub files: Seq<File>,
    pub stack: Seq<Window>,
    pub states: Map<Window, WindowState>,
    pub next_terminal_id: int,
    pub pending: Map<usize, Restore>,
}

impl Restoring {
    /// One more window comes back: the preview of a file, whose text is still to be read in full,
    /// unless the file is shown already, or a terminal, whose program is still to be started.
    pub open spec fn with_entry(self, root: Seq<char>, entry: Entry) -> Restoring {
        match entry {
            Entry::FilePreview { path, scroll, pane_size } => match file_with_path(
                self.files,
                path_joined(root, path),
                0,
            ) {
                Some(k) => {
                    let window = Window::FilePreview(FileKey(k as usize));
                    if self.stack.contains(window) {
                        self
                    } else {
                        Restoring {
                            files: self.files.update(
                                k,
                                File { needs_full_load: true, ..self.files[k] },
                            ),
                            stack: self.stack.push(window),
                            states: self.states.insert(
                                window,
                                WindowState {
                                    scroll,
                                    pane_size: read_size(pane_size),
                                    ..WindowState::fresh()
                                },
                            ),
                            ..self
                        }
                    }
                },
                None => self,
            },
            Entry::Terminal { command, cwd, is_command_pane, pane_size } => {
                let id = self.next_terminal_id as usize;
                let window = Window::Terminal(id);
                Restoring {
                    stack: self.stack.push(window),
                    states: self.states.insert(
                        window,
                        WindowState { pane_size: read_size(pane_size), ..WindowState::fresh() },
                    ),
                    next_terminal_id: self.next_terminal_id + 1,
                    pending: self.pending.insert(id, Restore { cwd, command, is_command_pane }),
                    ..self
                }
            },
        }
    }

    /// No window has come back twice and each has a state, the previews are of files in the list,
    /// and the next terminal is none of those that have come back.
    pub open spec fn wf(self) -> bool {
        &&& valid_stack(self.stack, self.states)
        &&& previews_in_list(self.stack, self.files.len() as int)
        &&& forall|i: int|
            0 <= i < self.stack.len() ==> ((#[trigger] self.stack[i]) matches Window::Terminal(id)
                ==> id < self.next_terminal_id)
    }

    /// The windows from the `i`-th on come back.
    pub open spec fn with_entries(self, root: Seq<char>, panes: Seq<Entry>, i: int) -> Restoring
        decreases panes.len() - i,
    {
        if i >= panes.len() {
            self
        } else {
            self.with_entry(root, panes[i]).with_entries(root, panes, i + 1)
        }
    }
}

/// What comes back into a state before any window has.
pub open spec fn nothing_restored(app: App, panes: Seq<Entry>) -> Restoring {
    Restoring {
        files: with_stubs(
            app.files,
            missing_paths(panes, app.root, app.files, panes.len() as int),
        ),
        stack: Seq::empty(),
        states: Map::empty(),
        next_terminal_id: app.next_terminal_id as int,
        pending: app.pending_terminals,
    }
}

/// The windows of a session are in effect, with the focus on the first, where there are any.
pub open spec fn windows_restored(app: App, panes: Seq<Entry>) -> App {
    let r = nothing_restored(app, panes).with_entries(app.root, panes, 0);
    let a = App {
        files: r.files,
        next_terminal_id: r.next_terminal_id as usize,
        pending_terminals: r.pending,
        ..app
    };
    if r.stack.len() == 0 {
        a
    } else {
        App {
            panes: Panes { stack: r.stack, states: r.states, focused: Some(r.stack[0]) },
            ..a
        }
    }
}

/// Whether saved highlight ranges belong to a file.
pub open spec fn belongs_to(
    saved: Map<Seq<char>, Seq<(usize, usize)>>,
    files: Seq<File>,
    root: Seq<char>,
    rel: Seq<char>,
    key: FileKey,
) -> bool {
    saved.contains_key(rel) && file_with_path(files, path_joined(root, rel), 0) == Some(
        key.0 as int,
    )
}

/// Whether highlight ranges are those that were saved: every saved path that leads to a file of the
/// list gives it its ranges, as they were saved, and nothing else does. Of two paths to the same
/// file either may.
pub open spec fn are_restored(
    ranges: Map<FileKey, Seq<(usize, usize)>>,
    saved: Map<Seq<char>, Seq<(usize, usize)>>,
    files: Seq<File>,
    root: Seq<char>,
) -> bool {
    &&& forall|key: FileKey|
        #[trigger] ranges.contains_key(key) ==> exists|rel: Seq<char>|
            #[trigger] belongs_to(saved, files, root, rel, key) && ranges[key] == saved[rel]
    &&& forall|key: FileKey, rel: Seq<char>|
        #[trigger] belongs_to(saved, files, root, rel, key) ==> ranges.contains_key(key)
}

/// The results of the picker for files, as its query finds them now.
pub open spec fn results_recomputed(app: App) -> App {
    let results = if app.file_name_picker.query.len() == 0 {
        open_results(app.files, app.panes.stack)
    } else {
        query_results(app.file_name_picker.query, app.files, app.root, app.panes.stack)
    };
    App { file_name_picker: Picker { results, ..app.file_name_picker }, ..app }
}

/// Whether paths go up: each comes before all that follow it.
pub open spec fn paths_go_up(list: Seq<Seq<char>>) -> bool {
    forall|i: int, j: int|
        0 <= i < j < list.len() ==> path_less(#[trigger] list[i], #[trigger] list[j])
}

/// Whether a list of paths holds a place.
pub fn is_listed(list: &Vec<String>, path: &str) -> (r: bool)
    ensures
        r == holds_place(texts(list@), path@),
{
    let mut i: usize = 0;
    while i < list.len()
        invariant
            i <= list@.len(),
            forall|j: int| 0 <= j < i ==> !same_place(#[trigger] texts(list@)[j], path@),
        decreases list@.len() - i,
    {
        assert(texts(list@)[i as int] == list@[i as int]@);
        if same_path(list[i].as_str(), path) {
            return true;
        }
        i += 1;
    }
    false
}

/// Puts a path into a list that is in order, unless it is there already.
fn add_path(list: &mut Vec<String>, path: String)
    requires
        paths_go_up(texts(old(list)@)),
    ensures
        texts(final(list)@) == with_path(texts(old(list)@), path@),
        paths_go_up(texts(final(list)@)),
{
    let ghost before = texts(list@);
    if is_listed(list, path.as_str()) {
        return;
    }
    let mut i: usize = 0;
    while i < list.len() && !is_before(path.as_str(), list[i].as_str())
        invariant
            i <= list@.len(),
            before == texts(list@),
            !holds_place(before, path@),
            forall|j: int| 0 <= j < i ==> path_less(#[trigger] before[j], path@),
            place_for(before, path@, 0) == place_for(before, path@, i as int),
        decreases list@.len() - i,
    {
        assert(before[i as int] == list@[i as int]@);
        i += 1;
    }
    proof {
        if i < list@.len() {
            assert(before[i as int] == list@[i as int]@);
        }
        assert(place_for(before, path@, 0) == i);
    }
    let ghost later = i < list@.len() ==> path_less(path@, before[i as int]) && forall|c:
        Seq<char>| #[trigger] path_less(before[i as int], c) ==> path_less(path@, c);
    list.insert(i, path);
    assert(texts(list@) =~= before.insert(i as int, path@));
    proof {
        let after = texts(list@);
        assert forall|a: int, b: int| 0 <= a < b < after.len() implies path_less(
            #[trigger] after[a],
            #[trigger] after[b],
        ) by {
            assert(later);
            let a2 = if a < i {
                a
            } else {
                a - 1
            };
            let b2 = if b < i {
                b
            } else {
                b - 1
            };
            if a != i {
                assert(after[a] == before[a2]);
            }
            if b != i {
                assert(after[b] == before[b2]);
            }
            if a == i && b2 > i {
                assert(path_less(before[i as int], before[b2]));
            }
        }
    }
}

/// The paths of files that a session shows and that are not in the list of files.
fn find_missing(state: &AppState, panes: &Vec<PaneEntry>) -> (r: Vec<String>)
    ensures
        texts(r@) == missing_paths(
            entries_of(panes@),
            state@.root,
            state@.files,
            panes@.len() as int,
        ),
        paths_go_up(texts(r@)),
{
    let ghost all = entries_of(panes@);
    let mut missing: Vec<String> = Vec::new();
    assert(texts(missing@) =~= missing_paths(all, state@.root, state@.files, 0));
    let mut i: usize = 0;
    while i < panes.len()
        invariant
            i <= panes@.len(),
            all == entries_of(panes@),
            texts(missing@) == missing_paths(all, state@.root, state@.files, i as int),
            paths_go_up(texts(missing@)),
        decreases panes@.len() - i,
    {
        assert(all[i as int] == panes@[i as int]@);
        if let PaneEntry::FilePreview { path, .. } = &panes[i] {
            let abs = join(state.root.as_str(), path.as_str());
            if file_key_for_path(&state.files, abs.as_str()).is_none() {
                add_path(&mut missing, abs);
            }
        }
        i += 1;
    }
    missing
}

/// Appends files that are not there to the list of files.
fn add_stubs(state: &mut AppState, missing: &Vec<String>)
    requires
        old(state).wf(),
    ensures
        final(state)@ == (App {
            files: with_stubs(old(state)@.files, texts(missing@)),
            ..old(state)@
        }),
        final(state).wf(),
{
    let ghost app = state@;
    let ghost all = texts(missing@);
    let mut i: usize = 0;
    assert(app.files + Seq::new(0, |j: int| File::missing(all[j])) =~= app.files);
    while i < missing.len()
        invariant
            i <= missing@.len(),
            all == texts(missing@),
            state@ == (App {
                files: app.files + Seq::new(i as nat, |j: int| File::missing(all[j])),
                ..app
            }),
            app.wf(),
            forall|j: int|
                0 <= j < state.files@.len() ==> (#[trigger] state.files@[j]).data.wf(),
        decreases missing@.len() - i,
    {
        let ghost before = state@.files;
        state.files.push(LoadedFile::stub(copy_of(missing[i].as_str())));
        i += 1;
        proof {
            let grown = app.files + Seq::new(i as nat, |j: int| File::missing(all[j]));
            assert(files_of(state.files@) =~= before.push(File::missing(all[i - 1])));
            assert(before.push(File::missing(all[i - 1])) =~= grown);
            assert(state@ =~= (App { files: grown, ..app }));
        }
    }
    proof {
        assert(state@.files =~= with_stubs(app.files, all));
        let after = state@;
        assert forall|j: int| 0 <= j < after.files.len() implies (
        #[trigger] after.files[j]).colors_fit() by {
            if j < app.files.len() {
                assert(after.files[j] == app.files[j]);
            }
        }
        assert(after.panes.stack == app.panes.stack);
        assert(after.wf());
    }
}

/// What has come back so far into a state, with windows that are not in effect yet.
pub open spec fn restoring(
    app: App,
    stack: Seq<Window>,
    states: Map<Window, WindowState>,
) -> Restoring {
    Restoring {
        files: app.files,
        stack,
        states,
        next_terminal_id: app.next_terminal_id as int,
        pending: app.pending_terminals,
    }
}

/// A state with what has come back, but for the windows.
pub open spec fn with_restored(app: App, r: Restoring) -> App {
    App {
        files: r.files,
        next_terminal_id: r.next_terminal_id as usize,
        pending_terminals: r.pending,
        ..app
    }
}

/// Whether every preview in a stack is of a file in the list.
pub open spec fn previews_in_list(stack: Seq<Window>, files: int) -> bool {
    forall|i: int|
        0 <= i < stack.len() ==> ((#[trigger] stack[i]) matches Window::FilePreview(key) ==> key.0
            < files)
}

/// Marks a file as one whose text is still to be read in full.
fn mark_for_load(state: &mut AppState, key: FileKey)
    requires
        old(state).wf(),
        key.0 < old(state).files@.len(),
    ensures
        final(state)@ == (App {
            files: old(state)@.files.update(
                key.0 as int,
                File { needs_full_load: true, ..old(state)@.files[key.0 as int] },
            ),
            ..old(state)@
        }),
        final(state).wf(),
{
    let ghost app = state@;
    let k: usize = key.0;
    state.files[k].needs_full_load = true;
    proof {
        let updated = app.files.update(
            k as int,
            File { needs_full_load: true, ..app.files[k as int] },
        );
        assert(state@.files =~= updated);
        assert(state@ =~= (App { files: updated, ..app }));
        assert forall|j: int| 0 <= j < updated.len() implies (
        #[trigger] updated[j]).colors_fit() by {
            assert(app.files[j].colors_fit());
        }
        assert(state@.wf());
    }
}

/// One more window leaves the others as valid as they were.
pub proof fn lemma_entry_keeps_wf(r: Restoring, root: Seq<char>, entry: Entry)
    requires
        r.wf(),
        r.files.len() <= usize::MAX,
        0 <= r.next_terminal_id < usize::MAX,
    ensures
        r.with_entry(root, entry).wf(),
{
    reveal(valid_stack);
    let next = r.with_entry(root, entry);
    if let Entry::FilePreview { path, .. } = entry {
        lemma_file_with_path(r.files, path_joined(root, path), 0);
    }
    if next.stack.len() > r.stack.len() {
        let window = next.stack.last();
        assert(next.stack =~= r.stack.push(window));
        assert(!r.stack.contains(window));
        assert forall|i: int, j: int|
            0 <= i < next.stack.len() && 0 <= j < next.stack.len() && i != j implies next.stack[i]
            != next.stack[j] by {
            if i < r.stack.len() {
                assert(r.stack.contains(r.stack[i]));
            }
            if j < r.stack.len() {
                assert(r.stack.contains(r.stack[j]));
            }
        }
    }
}

/// Lets one window come back.
fn restore_entry(
    state: &mut AppState,
    stack: &mut Vec<Window>,
    states: &mut KeyedMap<Window, WindowState>,
    entry: &PaneEntry,
)
    requires
        old(state).wf(),
        old(state)@.next_terminal_id < usize::MAX,
        restoring(old(state)@, old(stack)@, old(states)@).wf(),
    ensures
        ({
            let r = restoring(old(state)@, old(stack)@, old(states)@).with_entry(
                old(state)@.root,
                entry@,
            );
            &&& restoring(final(state)@, final(stack)@, final(states)@) == r
            &&& final(state)@ == with_restored(old(state)@, r)
        }),
        final(state).wf(),
        restoring(final(state)@, final(stack)@, final(states)@).wf(),
        final(state)@.next_terminal_id <= old(state)@.next_terminal_id + 1,
{
    let ghost app = state@;
    let ghost before = restoring(state@, stack@, states@);
    let ghost after = before.with_entry(app.root, entry@);
    proof {
        assert(state.files.len() == before.files.len());
        lemma_entry_keeps_wf(before, app.root, entry@);
    }
    match entry {
        PaneEntry::FilePreview { path, scroll, pane_size } => {
            let abs = join(state.root.as_str(), path.as_str());
            if let Some(key) = file_key_for_path(&state.files, abs.as_str()) {
                let window = Window::FilePreview(key);
                if position(stack, &window).is_none() {
                    mark_for_load(state, key);
                    stack.push(window);
                    let mut fresh = WindowState::default();
                    fresh.scroll = *scroll;
                    fresh.pane_size = PaneSize::from(*pane_size);
                    states.insert(window, fresh);
                }
            }
        },
        PaneEntry::Terminal { command, cwd, is_command_pane, pane_size } => {
            let id: usize = state.next_terminal_id;
            state.next_terminal_id = id + 1;
            let window = Window::Terminal(id);
            stack.push(window);
            let mut fresh = WindowState::default();
            fresh.pane_size = PaneSize::from(*pane_size);
            states.insert(window, fresh);
            let command = match command {
                Some(command) => Some(copy_of(command.as_str())),
                None => None,
            };
            let info = TerminalRestoreInfo {
                cwd: copy_of(cwd.as_str()),
                command,
                is_command_pane: *is_command_pane,
            };
            let ghost pending = state.pending_terminals@;
            state.pending_terminals.insert(id, info);
            proof {
                assert(restores_of(state.pending_terminals@) =~= restores_of(pending).insert(
                    id,
                    info@,
                ));
                crate::state::lemma_still_wf(app, state@);
            }
        },
    }
    proof {
        assert(restoring(state@, stack@, states@) =~= after);
        assert(state@ =~= with_restored(app, after));
    }
}

/// Puts the highlight ranges of a session into effect.
fn restore_ranges(state: &mut AppState, saved: &KeyedMap<String, Vec<(usize, usize)>>)
    requires
        old(state).wf(),
    ensures
        are_restored(
            final(state)@.highlights,
            saved_ranges(saved@),
            old(state)@.files,
            old(state)@.root,
        ),
        final(state)@ == (App { highlights: final(state)@.highlights, ..old(state)@ }),
        final(state).files == old(state).files,
        final(state).wf(),
{
    let ghost app = state@;
    let ghost order = saved.order();
    let ghost all = saved_ranges(saved@);
    state.highlight_ranges = KeyedMap::new();
    let n: usize = saved.len();
    let mut i: usize = 0;
    assert(state@ =~= (App { highlights: state@.highlights, ..app }));
    while i < n
        invariant
            i <= n == order.len(),
            order == saved.order(),
            saved@ == crate::keyed::entries_map(order),
            all == saved_ranges(saved@),
            app.wf(),
            state.files == old(state).files,
            old(state).wf(),
            state@ == (App { highlights: state@.highlights, ..app }),
            forall|key: FileKey| #[trigger]
                state@.highlights.contains_key(key) ==> exists|rel: Seq<char>| #[trigger]
                    belongs_to(all, app.files, app.root, rel, key) && state@.highlights[key]
                        == all[rel],
            forall|j: int, key: FileKey|
                0 <= j < i && #[trigger] belongs_to(all, app.files, app.root, order[j].0@, key)
                    ==> state@.highlights.contains_key(key),
        decreases n - i,
    {
        let ghost so_far = state@.highlights;
        let ghost held = state.highlight_ranges@;
        let (rel, ranges) = saved.entry_at(i);
        let ghost text = rel@;
        assert(all.contains_key(text) && all[text] == ranges@);
        let abs = join(state.root.as_str(), rel.as_str());
        match file_key_for_path(&state.files, abs.as_str()) {
            Some(key) => {
                state.highlight_ranges.insert(key, copy_ranges(ranges));
                proof {
                    assert(highlights_of(state.highlight_ranges@) =~= so_far.insert(
                        key,
                        ranges@,
                    ));
                    assert(belongs_to(all, app.files, app.root, text, key));
                    assert forall|k: FileKey| #[trigger]
                        state@.highlights.contains_key(k) implies exists|rel: Seq<char>| #[trigger]
                        belongs_to(all, app.files, app.root, rel, k) && state@.highlights[k]
                            == all[rel] by {
                        if k == key {
                            assert(belongs_to(all, app.files, app.root, text, k));
                        } else {
                            assert(so_far.contains_key(k));
                        }
                    }
                }
            },
            None => {},
        }
        i += 1;
        assert(state@ =~= (App { highlights: state@.highlights, ..app }));
    }
    proof {
        let got = state@.highlights;
        assert forall|key: FileKey, rel: Seq<char>| #[trigger]
            belongs_to(all, app.files, app.root, rel, key) implies got.contains_key(key) by {
            assert(saved@.contains_key(rel));
            crate::keyed::lemma_lookup_some(order, rel);
            let j = choose|j: int|
                0 <= j < order.len() && (#[trigger] order[j]).0.id() == rel && crate::keyed::lookup(
                    order,
                    rel,
                ) == Some(order[j].1);
            assert(order[j].0@ == rel);
            assert(belongs_to(all, app.files, app.root, order[j].0@, key));
        }
        assert(state@.wf());
    }
}

impl AppState {
    /// Finds the results of the picker for files anew.
    pub fn recompute_file_name_picker_results(&mut self)
        requires
            old(self).wf(),
        ensures
            final(self)@ == results_recomputed(old(self)@),
            final(self).files == old(self).files,
            final(self).wf(),
    {
        let results = FileNamePickerComponent::compute_results(self);
        self.set_file_results(results);
    }

    /// Whether the picker for files is among the windows.
    fn has_file_picker(&self) -> (r: bool)
        ensures
            r == self@.panes.stack.contains(Window::FileNamePicker),
    {
        position(&self.pane_manager.window_stack, &Window::FileNamePicker).is_some()
    }

    /// Lets the windows of a session come back.
    fn restore_windows(&mut self, panes: &Vec<PaneEntry>)
        requires
            old(self).wf(),
            old(self)@.next_terminal_id + panes@.len() <= usize::MAX,
        ensures
            final(self)@ == windows_restored(old(self)@, entries_of(panes@)),
            paths_go_up(
                missing_paths(
                    entries_of(panes@),
                    old(self)@.root,
                    old(self)@.files,
                    panes@.len() as int,
                ),
            ),
            final(self).wf(),
    {
        let ghost app = self@;
        let ghost all = entries_of(panes@);
        let missing = find_missing(self, panes);
        add_stubs(self, &missing);
        let mut stack: Vec<Window> = Vec::new();
        let mut states: KeyedMap<Window, WindowState> = KeyedMap::new();
        let ghost first = nothing_restored(app, all);
        assert(restoring(self@, stack@, states@) =~= first);
        assert(self@ =~= with_restored(app, first));
        assert(first.wf()) by {
            reveal(valid_stack);
        }
        let mut i: usize = 0;
        while i < panes.len()
            invariant
                i <= panes@.len(),
                all == entries_of(panes@),
                self.wf(),
                restoring(self@, stack@, states@).wf(),
                self@.next_terminal_id <= app.next_terminal_id + i,
                app.next_terminal_id + panes@.len() <= usize::MAX,
                self@ == with_restored(app, restoring(self@, stack@, states@)),
                first.with_entries(app.root, all, 0) == restoring(
                    self@,
                    stack@,
                    states@,
                ).with_entries(app.root, all, i as int),
            decreases panes@.len() - i,
        {
            assert(all[i as int] == panes@[i as int]@);
            restore_entry(self, &mut stack, &mut states, &panes[i]);
            i += 1;
            assert(self@ =~= with_restored(app, restoring(self@, stack@, states@)));
        }
        let ghost done = restoring(self@, stack@, states@);
        let ghost mid = self@;
        if stack.len() > 0 {
            let front = stack[0];
            self.pane_manager.window_stack = stack;
            self.pane_manager.window_states = states;
            self.pane_manager.focused_window = Some(front);
        }
        proof {
            assert(self@ =~= windows_restored(app, all));
            assert(self@.wf());
        }
    }
}

impl Session {
    /// Whether the session is of the version that is written today. Sessions of other versions are
    /// discarded.
    pub fn is_current(&self) -> (r: bool)
        ensures
            r == (self.version == crate::session::SESSION_VERSION),
    {
        self.version == crate::session::SESSION_VERSION
    }

    /// Puts the session into effect, where it is of the same repository. `own_root` is the root of
    /// the session and `root` that of the state, each as it is spelled on disk. Files that are
    /// not in the list are put in, as files that are not there, so that their windows come back:
    /// they follow the others, in the order of their paths.
    pub fn apply(self, state: &mut AppState, own_root: &str, root: &str)
        requires
            old(state).wf(),
            old(state)@.next_terminal_id + self.panes@.len() <= usize::MAX,
        ensures
            if same_place(own_root@, root@) {
                let app = windows_restored(old(state)@, entries_of(self.panes@));
                exists|highlights: Map<FileKey, Seq<(usize, usize)>>| #[trigger]
                    are_restored(
                        highlights,
                        saved_ranges(self.highlight_ranges@),
                        app.files,
                        app.root,
                    ) && final(state)@ == if app.panes.stack.contains(Window::FileNamePicker) {
                        results_recomputed(App { highlights, ..app })
                    } else {
                        (App { highlights, ..app })
                    }
            } else {
                final(state)@ == old(state)@
            },
            same_place(own_root@, root@) ==> paths_go_up(
                missing_paths(
                    entries_of(self.panes@),
                    old(state)@.root,
                    old(state)@.files,
                    self.panes@.len() as int,
                ),
            ),
            final(state).wf(),
    {
        if !same_path(own_root, root) {
            return;
        }
        let ghost app = windows_restored(state@, entries_of(self.panes@));
        state.restore_windows(&self.panes);
        restore_ranges(state, &self.highlight_ranges);
        let ghost highlights = state@.highlights;
        assert(state@ == (App { highlights, ..app }));
        if state.has_file_picker() {
            state.recompute_file_name_picker_results();
        }
        assert(are_restored(
            highlights,
            saved_ranges(self.highlight_ranges@),
            app.files,
            app.root,
        ));
    }
}

} // verus!
