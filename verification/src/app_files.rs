//! What becomes of the list of files when files change on disk.

use vstd::prelude::*;
use crate::effect::{Act, Effect, acts, perform};
use crate::file_name_picker::{FileNamePickerComponent, open_results};
use crate::fuzzy_picker::Picker;
use crate::pane_manager::Window;
use crate::paths::{same_path, same_place};
use crate::state::{App, AppState, File, LoadedFile, files_of, lemma_still_wf};
use crate::text::copy_of;
use crate::theme::optional_text;

verus! {

/// The path of a file that was created or modified, and its text where it can be read.
pub struct ChangedFile {
    pub path: String,
    pub content: Option<String>,
}

/// What changed on disk since the last time.
pub struct FileChanges {
    pub removed: Vec<String>,
    pub modified: Vec<ChangedFile>,
    pub created: Vec<ChangedFile>,
}

/// What a [`ChangedFile`] stands for.
pub open spec fn change_of(f: ChangedFile) -> (Seq<char>, Option<Seq<char>>) {
    (f.path@, optional_text(f.content))
}

/// The first file from `i` on, among the first `n`, with a path, and there or not as asked for.
pub open spec fn known_file(
    files: Seq<File>,
    n: int,
    path: Seq<char>,
    removed: Option<bool>,
    i: int,
) -> Option<int>
    decreases n - i,
{
    if i >= n {
        None
    } else if same_place(files[i].path, path) && (removed is None || removed == Some(files[i].removed)) {
        Some(i)
    } else {
        known_file(files, n, path, removed, i + 1)
    }
}

/// Which file is the first with a path.
fn find_file(
    files: &Vec<LoadedFile>,
    n: usize,
    path: &str,
    removed: Option<bool>,
) -> (r: Option<usize>)
    requires
        n <= files@.len(),
    ensures
        match r {
            Some(k) => known_file(files_of(files@), n as int, path@, removed, 0) == Some(
                k as int,
            ) && k < n,
            None => known_file(files_of(files@), n as int, path@, removed, 0) is None,
        },
{
    let ghost all = files_of(files@);
    let mut i: usize = 0;
    while i < n
        invariant
            i <= n <= files@.len(),
            all == files_of(files@),
            known_file(all, n as int, path@, removed, 0) == known_file(
                all,
                n as int,
                path@,
                removed,
                i as int,
            ),
        decreases n - i,
    {
        assert(all[i as int] == files@[i as int]@);
        let there = match removed {
            None => true,
            Some(removed) => files[i].removed == removed,
        };
        if there && same_path(files[i].path.as_str(), path) {
            return Some(i);
        }
        i += 1;
    }
    None
}

/// A list of files, and what is to be done because it changed.
#[verifier::ext_equal]
pub struct Listing {
    pub files: Seq<File>,
    pub acts: Seq<Act>,
}

impl Listing {
    /// The text of a file is read anew, where it can be read, and its tokens are asked for.
    pub open spec fn reloaded(self, k: int, text: Option<Seq<char>>) -> Listing {
        Listing {
            files: match text {
                Some(text) => self.files.update(k, self.files[k].with_text(text)),
                None => self.files,
            },
            acts: self.acts.push(Act::RequestTokens(k as usize)),
        }
    }

    /// A file is there, or not.
    pub open spec fn marked(self, k: int, removed: bool) -> Listing {
        Listing { files: self.files.update(k, File { removed, ..self.files[k] }), ..self }
    }

    /// A file was removed: the first of its path is marked, and its tokens are asked for.
    pub open spec fn file_removed(self, n: int, path: Seq<char>) -> Listing {
        match known_file(self.files, n, path, None, 0) {
            Some(k) => Listing {
                acts: self.acts.push(Act::RequestTokens(k as usize)),
                ..self.marked(k, true)
            },
            None => self,
        }
    }

    /// A file was modified: it is read anew, unless it is not there.
    pub open spec fn file_modified(self, n: int, f: (Seq<char>, Option<Seq<char>>)) -> Listing {
        match known_file(self.files, n, f.0, Some(false), 0) {
            Some(k) => self.reloaded(k, f.1),
            None => self,
        }
    }

    /// A file was created: one that was there before is there again, one that is there is read
    /// anew, and a new one goes to the end of the list, where it can be read.
    pub open spec fn file_created(self, n: int, f: (Seq<char>, Option<Seq<char>>)) -> Listing {
        match known_file(self.files, n, f.0, Some(true), 0) {
            Some(k) => self.marked(k, false).reloaded(k, f.1),
            None => match known_file(self.files, n, f.0, Some(false), 0) {
                Some(k) => self.reloaded(k, f.1),
                None => match f.1 {
                    Some(text) => Listing { files: self.files.push(File::fresh(f.0, text)), ..self },
                    None => self,
                },
            },
        }
    }

    /// Some files were removed.
    pub open spec fn all_removed(self, n: int, paths: Seq<String>, i: int) -> Listing
        decreases paths.len() - i,
    {
        if i >= paths.len() {
            self
        } else {
            self.file_removed(n, paths[i]@).all_removed(n, paths, i + 1)
        }
    }

    /// Some files were modified.
    pub open spec fn all_modified(self, n: int, changed: Seq<ChangedFile>, i: int) -> Listing
        decreases changed.len() - i,
    {
        if i >= changed.len() {
            self
        } else {
            self.file_modified(n, change_of(changed[i])).all_modified(n, changed, i + 1)
        }
    }

    /// Some files were created.
    pub open spec fn all_created(self, n: int, created: Seq<ChangedFile>, i: int) -> Listing
        decreases created.len() - i,
    {
        if i >= created.len() {
            self
        } else {
            self.file_created(n, change_of(created[i])).all_created(n, created, i + 1)
        }
    }

    /// A change on disk: what was removed, what was modified, and what was created, in this order.
    pub open spec fn changed(self, c: FileChanges) -> Listing {
        let n = self.files.len() as int;
        self.all_removed(n, c.removed@, 0).all_modified(n, c.modified@, 0).all_created(
            n,
            c.created@,
            0,
        )
    }

    /// Whether the list goes on from another, with the files where they were.
    pub open spec fn goes_on_from(self, files: Seq<File>) -> bool {
        &&& files.len() <= self.files.len()
        &&& forall|i: int|
            0 <= i < files.len() ==> (#[trigger] self.files[i]).path == files[i].path
    }

    /// Whether the tokens of all files start and end at characters.
    pub open spec fn colors_fit(self) -> bool {
        forall|i: int| 0 <= i < self.files.len() ==> (#[trigger] self.files[i]).colors_fit()
    }
}

/// A file that is found is one of the first `n`.
proof fn lemma_known_file(files: Seq<File>, n: int, path: Seq<char>, removed: Option<bool>, i: int)
    requires
        0 <= i,
        n <= files.len(),
    ensures
        known_file(files, n, path, removed, i) matches Some(k) ==> i <= k < n,
    decreases n - i,
{
    if i < n {
        lemma_known_file(files, n, path, removed, i + 1);
    }
}

/// One change keeps the files where they are.
proof fn lemma_steps_go_on(l: Listing, n: int, path: Seq<char>, f: (Seq<char>, Option<Seq<char>>))
    requires
        0 <= n <= l.files.len(),
    ensures
        l.file_removed(n, path).goes_on_from(l.files),
        l.file_modified(n, f).goes_on_from(l.files),
        l.file_created(n, f).goes_on_from(l.files),
        l.colors_fit() ==> l.file_removed(n, path).colors_fit(),
        l.colors_fit() ==> l.file_modified(n, f).colors_fit(),
        l.colors_fit() ==> l.file_created(n, f).colors_fit(),
{
    lemma_known_file(l.files, n, path, None, 0);
    lemma_known_file(l.files, n, f.0, Some(false), 0);
    lemma_known_file(l.files, n, f.0, Some(true), 0);
    if l.colors_fit() {
        let a = l.file_removed(n, path);
        assert forall|i: int| 0 <= i < a.files.len() implies (#[trigger] a.files[i]).colors_fit() by {
            assert(l.files[i].colors_fit());
        }
        let b = l.file_modified(n, f);
        assert forall|i: int| 0 <= i < b.files.len() implies (#[trigger] b.files[i]).colors_fit() by {
            assert(l.files[i].colors_fit());
        }
        let c = l.file_created(n, f);
        assert forall|i: int| 0 <= i < c.files.len() implies (#[trigger] c.files[i]).colors_fit() by {
            if i < l.files.len() {
                assert(l.files[i].colors_fit());
            }
        }
    }
}

/// All changes keep the files where they are.
proof fn lemma_all_go_on(l: Listing, n: int, removed: Seq<String>, changed: Seq<ChangedFile>, i: int)
    requires
        0 <= i,
        0 <= n <= l.files.len(),
    ensures
        l.all_removed(n, removed, i).goes_on_from(l.files),
        l.all_modified(n, changed, i).goes_on_from(l.files),
        l.all_created(n, changed, i).goes_on_from(l.files),
        l.colors_fit() ==> l.all_removed(n, removed, i).colors_fit(),
        l.colors_fit() ==> l.all_modified(n, changed, i).colors_fit(),
        l.colors_fit() ==> l.all_created(n, changed, i).colors_fit(),
    decreases removed.len() + changed.len() - i,
{
    if i < removed.len() {
        lemma_steps_go_on(l, n, removed[i]@, (removed[i]@, None));
        lemma_all_go_on(l.file_removed(n, removed[i]@), n, removed, changed, i + 1);
    }
    if i < changed.len() {
        let f = change_of(changed[i]);
        lemma_steps_go_on(l, n, f.0, f);
        lemma_all_go_on(l.file_modified(n, f), n, removed, changed, i + 1);
        lemma_all_go_on(l.file_created(n, f), n, removed, changed, i + 1);
    }
}

/// Files are never taken out of the list nor moved: whatever changes on disk, a key stays that of
/// the same path.
pub proof fn law_keys_stay_stable(l: Listing, c: FileChanges)
    ensures
        l.changed(c).goes_on_from(l.files),
        l.colors_fit() ==> l.changed(c).colors_fit(),
{
    let n = l.files.len() as int;
    let a = l.all_removed(n, c.removed@, 0);
    let b = a.all_modified(n, c.modified@, 0);
    lemma_all_go_on(l, n, c.removed@, Seq::empty(), 0);
    lemma_all_go_on(a, n, Seq::empty(), c.modified@, 0);
    lemma_all_go_on(b, n, Seq::empty(), c.created@, 0);
    let d = l.changed(c);
    assert forall|i: int| 0 <= i < l.files.len() implies (#[trigger] d.files[i]).path
        == l.files[i].path by {
        assert(b.files[i].path == a.files[i].path);
        assert(a.files[i].path == l.files[i].path);
    }
}

/// What a change on disk leads to, behind what is to be done already. The results of the picker for
/// files follow, where it is open, and the list has a new version.
pub open spec fn files_changed(app: App, c: FileChanges, version: u64, before: Seq<Act>) -> (
    App,
    Seq<Act>,
) {
    let l = (Listing { files: app.files, acts: before }).changed(c);
    let next = App { files: l.files, files_version: version, ..app };
    if !app.panes.stack.contains(Window::FileNamePicker) {
        (next, l.acts)
    } else if app.file_name_picker.query.len() == 0 {
        (
            App {
                file_name_picker: Picker {
                    results: open_results(next.files, next.panes.stack),
                    ..app.file_name_picker
                },
                ..next
            },
            l.acts,
        )
    } else {
        (next, l.acts.push(Act::MatchFiles))
    }
}

/// Whether the texts of some files are in order.
pub open spec fn texts_in_order(files: Seq<LoadedFile>) -> bool {
    forall|i: int| 0 <= i < files.len() ==> (#[trigger] files[i]).data.wf()
}

/// What a list of files and some effects stand for.
pub open spec fn listing(files: Seq<LoadedFile>, effects: Seq<Effect>) -> Listing {
    Listing { files: files_of(files), acts: acts(effects) }
}

/// Reads the text of a file anew, and asks for its tokens.
fn reload_file(
    files: &mut Vec<LoadedFile>,
    k: usize,
    content: &Option<String>,
    effects: &mut Vec<Effect>,
)
    requires
        k < old(files)@.len(),
        texts_in_order(old(files)@),
    ensures
        listing(final(files)@, final(effects)@) == listing(old(files)@, old(effects)@).reloaded(
            k as int,
            optional_text(*content),
        ),
        texts_in_order(final(files)@),
{
    let content: Option<String> = match content {
        Some(text) => Some(copy_of(text.as_str())),
        None => None,
    };
    let ghost before = listing(files@, effects@);
    let ghost text = optional_text(content);
    files[k].reload(content);
    perform(effects, Effect::RequestTokens(k));
    proof {
        let after = listing(files@, effects@);
        assert(after.acts =~= before.acts.push(Act::RequestTokens(k)));
        match text {
            Some(text) => {
                assert(after.files =~= before.files.update(
                    k as int,
                    before.files[k as int].with_text(text),
                ));
            },
            None => {
                assert(after.files =~= before.files);
            },
        }
    }
}

/// Marks a file as there or not.
fn mark_file(files: &mut Vec<LoadedFile>, k: usize, removed: bool)
    requires
        k < old(files)@.len(),
        texts_in_order(old(files)@),
    ensures
        files_of(final(files)@) == files_of(old(files)@).update(
            k as int,
            (File { removed, ..files_of(old(files)@)[k as int] }),
        ),
        texts_in_order(final(files)@),
{
    let ghost before = files_of(files@);
    files[k].removed = removed;
    assert(files_of(files@) =~= before.update(
        k as int,
        File { removed, ..before[k as int] },
    ));
}

/// Takes note of a file that was removed.
fn note_removed(files: &mut Vec<LoadedFile>, n: usize, path: &str, effects: &mut Vec<Effect>)
    requires
        n <= old(files)@.len(),
        texts_in_order(old(files)@),
    ensures
        listing(final(files)@, final(effects)@) == listing(
            old(files)@,
            old(effects)@,
        ).file_removed(n as int, path@),
        texts_in_order(final(files)@),
        final(files)@.len() == old(files)@.len(),
{
    let ghost before = listing(files@, effects@);
    if let Some(k) = find_file(files, n, path, None) {
        mark_file(files, k, true);
        perform(effects, Effect::RequestTokens(k));
        assert(acts(effects@) =~= before.acts.push(Act::RequestTokens(k)));
        assert(files_of(files@).len() == before.files.len());
    }
}

/// Takes note of a file that was modified.
fn note_modified(
    files: &mut Vec<LoadedFile>,
    n: usize,
    changed: &ChangedFile,
    effects: &mut Vec<Effect>,
)
    requires
        n <= old(files)@.len(),
        texts_in_order(old(files)@),
    ensures
        listing(final(files)@, final(effects)@) == listing(
            old(files)@,
            old(effects)@,
        ).file_modified(n as int, change_of(*changed)),
        texts_in_order(final(files)@),
        final(files)@.len() == old(files)@.len(),
{
    let ghost before = listing(files@, effects@);
    if let Some(k) = find_file(files, n, changed.path.as_str(), Some(false)) {
        reload_file(files, k, &changed.content, effects);
        assert(files_of(files@).len() == before.files.len());
    }
}

/// Takes note of a file that was created.
fn note_created(
    files: &mut Vec<LoadedFile>,
    n: usize,
    created: &ChangedFile,
    effects: &mut Vec<Effect>,
)
    requires
        n <= old(files)@.len(),
        texts_in_order(old(files)@),
    ensures
        listing(final(files)@, final(effects)@) == listing(
            old(files)@,
            old(effects)@,
        ).file_created(n as int, change_of(*created)),
        texts_in_order(final(files)@),
        final(files)@.len() >= old(files)@.len(),
{
    let ghost before = listing(files@, effects@);
    if let Some(k) = find_file(files, n, created.path.as_str(), Some(true)) {
        mark_file(files, k, false);
        assert(files_of(files@).len() == before.files.len());
        reload_file(files, k, &created.content, effects);
        assert(files_of(files@).len() == before.files.len());
    } else if let Some(k) = find_file(files, n, created.path.as_str(), Some(false)) {
        reload_file(files, k, &created.content, effects);
        assert(files_of(files@).len() == before.files.len());
    } else if let Some(text) = &created.content {
        let content = Some(copy_of(text.as_str()));
        if let Some(file) = LoadedFile::load(copy_of(created.path.as_str()), content) {
            files.push(file);
            assert(files_of(files@) =~= before.files.push(File::fresh(created.path@, text@)));
        }
    }
}

/// Takes note of all that changed on disk.
fn note_changes(files: &mut Vec<LoadedFile>, changes: &FileChanges, effects: &mut Vec<Effect>)
    requires
        texts_in_order(old(files)@),
    ensures
        listing(final(files)@, final(effects)@) == listing(
            old(files)@,
            old(effects)@,
        ).changed(*changes),
        texts_in_order(final(files)@),
{
    let n: usize = files.len();
    let ghost first = listing(files@, effects@);
    let mut i: usize = 0;
    while i < changes.removed.len()
        invariant
            i <= changes.removed@.len(),
            files@.len() == n,
            texts_in_order(files@),
            first.all_removed(n as int, changes.removed@, 0) == listing(
                files@,
                effects@,
            ).all_removed(n as int, changes.removed@, i as int),
        decreases changes.removed@.len() - i,
    {
        note_removed(files, n, changes.removed[i].as_str(), effects);
        i += 1;
    }
    let ghost second = listing(files@, effects@);
    let mut i: usize = 0;
    while i < changes.modified.len()
        invariant
            i <= changes.modified@.len(),
            files@.len() == n,
            texts_in_order(files@),
            second.all_modified(n as int, changes.modified@, 0) == listing(
                files@,
                effects@,
            ).all_modified(n as int, changes.modified@, i as int),
        decreases changes.modified@.len() - i,
    {
        note_modified(files, n, &changes.modified[i], effects);
        i += 1;
    }
    let ghost third = listing(files@, effects@);
    let mut i: usize = 0;
    while i < changes.created.len()
        invariant
            i <= changes.created@.len(),
            files@.len() >= n,
            texts_in_order(files@),
            third.all_created(n as int, changes.created@, 0) == listing(
                files@,
                effects@,
            ).all_created(n as int, changes.created@, i as int),
        decreases changes.created@.len() - i,
    {
        note_created(files, n, &changes.created[i], effects);
        i += 1;
    }
}

impl AppState {
    /// Takes note of what the counter of versions says.
    pub fn bump_files_version(&mut self, version: u64)
        ensures
            final(self)@ == (App { files_version: version, ..old(self)@ }),
            final(self).files == old(self).files,
    {
        self.files_version = version;
    }

    /// Handles a change on disk. `version` is the next of the counter of versions.
    pub fn handle_files_changed(
        &mut self,
        changes: &FileChanges,
        version: u64,
        effects: &mut Vec<Effect>,
    )
        requires
            old(self).wf(),
        ensures
            ({
                let (app, acts_after) = files_changed(
                    old(self)@,
                    *changes,
                    version,
                    acts(old(effects)@),
                );
                &&& final(self)@ == app
                &&& acts(final(effects)@) == acts_after
            }),
            final(self).wf(),
    {
        let ghost app = self@;
        let ghost before = listing(self.files@, effects@);
        proof {
            assert(before.colors_fit());
            law_keys_stay_stable(before, *changes);
        }
        note_changes(&mut self.files, changes, effects);
        let ghost l = before.changed(*changes);
        assert(self@ =~= (App { files: l.files, ..app }));
        proof {
            assert(app.files.len() <= l.files.len());
            assert(self@.wf());
        }
        let mut open = false;
        let mut i: usize = 0;
        while i < self.pane_manager.window_stack.len()
            invariant
                i <= self.pane_manager.window_stack@.len(),
                open == exists|j: int|
                    0 <= j < i && self.pane_manager.window_stack@[j] == Window::FileNamePicker,
            decreases self.pane_manager.window_stack@.len() - i,
        {
            if self.pane_manager.window_stack[i] == Window::FileNamePicker {
                open = true;
            }
            i += 1;
        }
        assert(open == app.panes.stack.contains(Window::FileNamePicker));
        if open {
            if crate::bytes::text_len(self.file_name_picker.query.as_str()) == 0 {
                proof {
                    crate::file_name_picker::lemma_stack_in_list(self);
                }
                let results = FileNamePickerComponent::open_previews_results(
                    &self.files,
                    &self.pane_manager.window_stack,
                );
                self.set_file_results(results);
            } else {
                perform(effects, Effect::MatchFiles);
                assert(acts(effects@) =~= l.acts.push(Act::MatchFiles));
            }
        }
        let ghost mid = self@;
        self.bump_files_version(version);
        proof {
            lemma_still_wf(mid, self@);
            let (goal, acts_after) = files_changed(app, *changes, version, before.acts);
            assert(self@ =~= goal);
        }
    }
}

} // verus!
