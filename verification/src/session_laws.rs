//! What sessions promise: every window that was saved comes back.

use vstd::prelude::*;
use crate::app_frame::restored;
use crate::loader::FileKey;
use crate::pane_manager::{Window, valid_stack};
use crate::paths::{path_joined, same_place};
use crate::session::{
    Entry, entry_of, law_saved_size_reads_back, leads_back, preview_path, read_size, saved_key,
    saved_panes, window_leads_back,
};
use crate::session_apply::{
    Restoring, holds_place, lemma_entry_keeps_wf, missing_paths, nothing_restored, place_for,
    windows_restored, with_path,
};
use crate::state::{App, File, file_with_path, lemma_file_with_path};

verus! {

/// Whether no two of some paths lead to the same place.
pub open spec fn distinct_places(list: Seq<Seq<char>>) -> bool {
    forall|i: int, j: int|
        0 <= i < j < list.len() ==> !same_place(#[trigger] list[i], #[trigger] list[j])
}

/// A place in a list lies within it.
proof fn lemma_place_for(list: Seq<Seq<char>>, path: Seq<char>, i: int)
    requires
        0 <= i <= list.len(),
    ensures
        i <= place_for(list, path, i) <= list.len(),
    decreases list.len() - i,
{
    if i < list.len() {
        lemma_place_for(list, path, i + 1);
    }
}

/// One path more leaves the places distinct, and the list holds it and what it held.
proof fn lemma_with_path(list: Seq<Seq<char>>, path: Seq<char>)
    requires
        distinct_places(list),
    ensures
        distinct_places(with_path(list, path)),
        holds_place(with_path(list, path), path),
        forall|p: Seq<char>| holds_place(list, p) ==> #[trigger] holds_place(
            with_path(list, path),
            p,
        ),
        forall|i: int|
            0 <= i < with_path(list, path).len() ==> #[trigger] with_path(list, path)[i] == path
                || list.contains(with_path(list, path)[i]),
{
    let more = with_path(list, path);
    if !holds_place(list, path) {
        let k = place_for(list, path, 0);
        lemma_place_for(list, path, 0);
        assert(more[k] == path);
        assert forall|i: int, j: int| 0 <= i < j < more.len() implies !same_place(
            #[trigger] more[i],
            #[trigger] more[j],
        ) by {
            let a = if i < k {
                i
            } else {
                i - 1
            };
            let b = if j < k {
                j
            } else {
                j - 1
            };
            if i != k {
                assert(more[i] == list[a]);
            }
            if j != k {
                assert(more[j] == list[b]);
            }
        }
        assert forall|p: Seq<char>| holds_place(list, p) implies #[trigger] holds_place(more, p) by {
            let i = choose|i: int| 0 <= i < list.len() && same_place(#[trigger] list[i], p);
            if i < k {
                assert(same_place(more[i], p));
            } else {
                assert(same_place(more[i + 1], p));
            }
        }
        assert forall|i: int| 0 <= i < more.len() implies #[trigger] more[i] == path
            || list.contains(more[i]) by {
            if i < k {
                assert(more[i] == list[i]);
            } else if i > k {
                assert(more[i] == list[i - 1]);
            }
        }
    } else {
        assert forall|i: int| 0 <= i < more.len() implies #[trigger] more[i] == path
            || list.contains(more[i]) by {
            assert(list.contains(list[i]));
        }
    }
}

/// Whether a window is the preview of a file that is not in the list.
pub open spec fn is_missing(entry: Entry, root: Seq<char>, files: Seq<File>) -> bool {
    entry matches Entry::FilePreview { path, .. } && file_with_path(
        files,
        path_joined(root, path),
        0,
    ) is None
}

/// The files that are put in for a session are at distinct places, none of them is in the list
/// already, and every preview of a missing file has one of them. So each missing file has a key of
/// its own.
pub proof fn law_missing_files_get_distinct_keys(
    panes: Seq<Entry>,
    root: Seq<char>,
    files: Seq<File>,
    n: int,
)
    requires
        0 <= n <= panes.len(),
    ensures
        ({
            let missing = missing_paths(panes, root, files, n);
            &&& distinct_places(missing)
            &&& forall|i: int|
                0 <= i < missing.len() ==> file_with_path(files, #[trigger] missing[i], 0) is None
            &&& forall|i: int|
                0 <= i < n && is_missing(#[trigger] panes[i], root, files) ==> holds_place(
                    missing,
                    path_joined(root, panes[i]->path),
                )
        }),
    decreases n,
{
    if n > 0 {
        law_missing_files_get_distinct_keys(panes, root, files, n - 1);
        let before = missing_paths(panes, root, files, n - 1);
        if let Entry::FilePreview { path, .. } = panes[n - 1] {
            lemma_with_path(before, path_joined(root, path));
            let missing = missing_paths(panes, root, files, n);
            assert forall|i: int| 0 <= i < missing.len() implies file_with_path(
                files,
                #[trigger] missing[i],
                0,
            ) is None by {
                if before.contains(missing[i]) {
                    let j = choose|j: int| 0 <= j < before.len() && before[j] == missing[i];
                    assert(file_with_path(files, before[j], 0) is None);
                }
            }
        }
    }
}

/// Whether two lists hold files with the same paths.
pub open spec fn same_paths(a: Seq<File>, b: Seq<File>) -> bool {
    a.len() == b.len() && forall|i: int| 0 <= i < a.len() ==> (#[trigger] a[i]).path == b[i].path
}

/// Files with the same paths are found in the same way.
proof fn lemma_same_search(a: Seq<File>, b: Seq<File>, path: Seq<char>, i: int)
    requires
        0 <= i,
        same_paths(a, b),
    ensures
        file_with_path(a, path, i) == file_with_path(b, path, i),
    decreases a.len() - i,
{
    if i < a.len() {
        assert(a[i].path == b[i].path);
        lemma_same_search(a, b, path, i + 1);
    }
}

/// Whether a window is what an entry of a session stands for.
pub open spec fn comes_back(
    files: Seq<File>,
    root: Seq<char>,
    entry: Entry,
    window: Window,
) -> bool {
    match entry {
        Entry::FilePreview { path, .. } => window matches Window::FilePreview(key)
            && file_with_path(files, path_joined(root, path), 0) == Some(key.0 as int),
        Entry::Terminal { .. } => window is Terminal,
    }
}

/// Whether the file of an entry is in a list.
pub open spec fn is_found(files: Seq<File>, root: Seq<char>, entry: Entry) -> bool {
    entry matches Entry::FilePreview { path, .. } ==> file_with_path(
        files,
        path_joined(root, path),
        0,
    ) is Some
}

/// The window that shows the file of an entry.
pub open spec fn preview_of(files: Seq<File>, root: Seq<char>, entry: Entry) -> Window {
    Window::FilePreview(
        FileKey(file_with_path(files, path_joined(root, entry->path), 0)->0 as usize),
    )
}

/// Whether a window is the preview of a file that one of those before it shows already.
pub open spec fn repeats(files: Seq<File>, root: Seq<char>, panes: Seq<Entry>, j: int) -> bool {
    panes[j] is FilePreview && exists|i: int|
        0 <= i < j && (#[trigger] panes[i]) is FilePreview && preview_of(files, root, panes[i])
            == preview_of(files, root, panes[j])
}

/// How many of the first `n` windows show something that none before them does.
pub open spec fn places_taken(
    files: Seq<File>,
    root: Seq<char>,
    panes: Seq<Entry>,
    n: int,
) -> int
    decreases n,
{
    if n <= 0 {
        0
    } else if repeats(files, root, panes, n - 1) {
        places_taken(files, root, panes, n - 1)
    } else {
        places_taken(files, root, panes, n - 1) + 1
    }
}

/// More windows take no fewer places.
proof fn lemma_places_taken(files: Seq<File>, root: Seq<char>, panes: Seq<Entry>, m: int, n: int)
    requires
        0 <= m <= n,
    ensures
        0 <= places_taken(files, root, panes, m) <= places_taken(files, root, panes, n) <= n,
        m < n && !repeats(files, root, panes, m) ==> places_taken(files, root, panes, m)
            < places_taken(files, root, panes, n),
    decreases n,
{
    if m < n {
        lemma_places_taken(files, root, panes, m, n - 1);
    } else if m > 0 {
        lemma_places_taken(files, root, panes, m - 1, n - 1);
    }
}

/// Whether a stack holds what the first `n` windows of a session stand for: each in its place, or,
/// where it repeats one before it, in the place of that one.
pub open spec fn stack_holds(
    stack: Seq<Window>,
    files: Seq<File>,
    root: Seq<char>,
    panes: Seq<Entry>,
    n: int,
) -> bool {
    &&& stack.len() == places_taken(files, root, panes, n)
    &&& forall|j: int|
        0 <= j < n && !(#[trigger] repeats(files, root, panes, j)) ==> comes_back(
            files,
            root,
            panes[j],
            stack[places_taken(files, root, panes, j)],
        )
    &&& forall|j: int|
        0 <= j < n && (#[trigger] panes[j]) is FilePreview ==> stack.contains(
            preview_of(files, root, panes[j]),
        )
}

/// Whether every preview in a stack is of a file of the first `n` windows.
spec fn stack_comes_from(
    stack: Seq<Window>,
    files: Seq<File>,
    root: Seq<char>,
    panes: Seq<Entry>,
    n: int,
) -> bool {
    forall|s: int|
        0 <= s < stack.len() && (#[trigger] stack[s]) is FilePreview ==> exists|i: int|
            0 <= i < n && (#[trigger] panes[i]) is FilePreview && preview_of(files, root, panes[i])
                == stack[s]
}

/// One more window takes its place.
proof fn lemma_entry_comes_back(
    r: Restoring,
    files: Seq<File>,
    root: Seq<char>,
    panes: Seq<Entry>,
    i: int,
)
    requires
        0 <= i < panes.len(),
        files.len() <= usize::MAX,
        same_paths(r.files, files),
        is_found(files, root, panes[i]),
        stack_holds(r.stack, files, root, panes, i),
        stack_comes_from(r.stack, files, root, panes, i),
    ensures
        same_paths(r.with_entry(root, panes[i]).files, files),
        stack_holds(r.with_entry(root, panes[i]).stack, files, root, panes, i + 1),
        stack_comes_from(r.with_entry(root, panes[i]).stack, files, root, panes, i + 1),
{
    let next = r.with_entry(root, panes[i]);
    let window = preview_of(files, root, panes[i]);
    if let Entry::FilePreview { path, .. } = panes[i] {
        let abs = path_joined(root, path);
        lemma_same_search(r.files, files, abs, 0);
        lemma_file_with_path(files, abs, 0);
        if r.stack.contains(window) {
            let s = choose|s: int| 0 <= s < r.stack.len() && r.stack[s] == window;
            assert(r.stack[s] is FilePreview);
        }
        assert(r.stack.contains(window) <==> repeats(files, root, panes, i));
    }
    if next.stack.len() > r.stack.len() {
        assert(next.stack =~= r.stack.push(next.stack.last()));
        assert(next.stack[r.stack.len() as int] == next.stack.last());
    }
    assert forall|j: int| 0 <= j < i + 1 && !(#[trigger] repeats(files, root, panes, j)) implies
        comes_back(files, root, panes[j], next.stack[places_taken(files, root, panes, j)]) by {
        lemma_places_taken(files, root, panes, j, i);
        if j < i {
            assert(comes_back(files, root, panes[j], r.stack[places_taken(files, root, panes, j)]));
        }
    }
    assert forall|j: int| 0 <= j < i + 1 && (#[trigger] panes[j]) is FilePreview implies
        next.stack.contains(preview_of(files, root, panes[j])) by {
        if j < i || r.stack.contains(window) {
            let w = preview_of(files, root, panes[j]);
            assert(r.stack.contains(w));
            let s = choose|s: int| 0 <= s < r.stack.len() && r.stack[s] == w;
            assert(next.stack[s] == w);
        }
    }
    assert forall|s: int| 0 <= s < next.stack.len() && (#[trigger] next.stack[s]) is FilePreview
        implies exists|j: int|
        0 <= j < i + 1 && (#[trigger] panes[j]) is FilePreview && preview_of(files, root, panes[j])
            == next.stack[s] by {
        if s < r.stack.len() {
            assert(r.stack[s] is FilePreview);
            let j = choose|j: int|
                0 <= j < i && (#[trigger] panes[j]) is FilePreview && preview_of(
                    files,
                    root,
                    panes[j],
                ) == r.stack[s];
            assert(panes[j] is FilePreview);
        } else {
            assert(panes[i] is FilePreview);
        }
    }
}

/// The windows from the `i`-th on take their places behind those before.
proof fn lemma_entries_come_back(
    r: Restoring,
    files: Seq<File>,
    root: Seq<char>,
    panes: Seq<Entry>,
    i: int,
)
    requires
        0 <= i <= panes.len(),
        files.len() <= usize::MAX,
        same_paths(r.files, files),
        forall|j: int| 0 <= j < panes.len() ==> is_found(files, root, #[trigger] panes[j]),
        stack_holds(r.stack, files, root, panes, i),
        stack_comes_from(r.stack, files, root, panes, i),
    ensures
        same_paths(r.with_entries(root, panes, i).files, files),
        stack_holds(
            r.with_entries(root, panes, i).stack,
            files,
            root,
            panes,
            panes.len() as int,
        ),
    decreases panes.len() - i,
{
    if i < panes.len() {
        assert(is_found(files, root, panes[i]));
        lemma_entry_comes_back(r, files, root, panes, i);
        lemma_entries_come_back(r.with_entry(root, panes[i]), files, root, panes, i + 1);
    }
}

/// Windows stay as valid as they were while more of them come back.
proof fn lemma_entries_keep_wf(r: Restoring, root: Seq<char>, panes: Seq<Entry>, i: int)
    requires
        0 <= i <= panes.len(),
        r.wf(),
        r.files.len() <= usize::MAX,
        0 <= r.next_terminal_id,
        r.next_terminal_id + panes.len() - i <= usize::MAX,
    ensures
        r.with_entries(root, panes, i).wf(),
    decreases panes.len() - i,
{
    if i < panes.len() {
        lemma_entry_keeps_wf(r, root, panes[i]);
        if let Entry::FilePreview { path, .. } = panes[i] {
            lemma_file_with_path(r.files, path_joined(root, path), 0);
        }
        lemma_entries_keep_wf(r.with_entry(root, panes[i]), root, panes, i + 1);
    }
}

/// A session shows no file twice, whatever it holds: no window of those that come back stands in
/// the stack twice, and each has a state.
pub proof fn law_windows_come_back_once(app: App, panes: Seq<Entry>)
    requires
        app.files.len() + panes.len() <= usize::MAX,
        app.next_terminal_id + panes.len() <= usize::MAX,
    ensures
        ({
            let done = nothing_restored(app, panes).with_entries(app.root, panes, 0);
            &&& valid_stack(done.stack, done.states)
            &&& done.stack.no_duplicates()
        }),
{
    let first = nothing_restored(app, panes);
    assert(first.wf()) by {
        reveal(valid_stack);
    }
    lemma_missing_count(panes, app.root, app.files, panes.len() as int);
    lemma_entries_keep_wf(first, app.root, panes, 0);
    reveal(valid_stack);
}

/// Where no file is saved twice, every window has its own place: that which it has in the session.
pub proof fn law_distinct_windows_keep_places(
    files: Seq<File>,
    root: Seq<char>,
    panes: Seq<Entry>,
    n: int,
)
    requires
        0 <= n <= panes.len(),
        forall|i: int, j: int|
            0 <= i < j < panes.len() && (#[trigger] panes[i]) is FilePreview && (
            #[trigger] panes[j]) is FilePreview ==> preview_of(files, root, panes[i])
                != preview_of(files, root, panes[j]),
    ensures
        places_taken(files, root, panes, n) == n,
    decreases n,
{
    if n > 0 {
        law_distinct_windows_keep_places(files, root, panes, n - 1);
    }
}

/// A file of a list is found in a longer one too, and at the same place.
proof fn lemma_longer_search(files: Seq<File>, more: Seq<File>, path: Seq<char>, i: int)
    requires
        0 <= i <= files.len(),
        file_with_path(files, path, i) is Some,
    ensures
        file_with_path(files + more, path, i) == file_with_path(files, path, i),
    decreases files.len() - i,
{
    if i < files.len() {
        assert((files + more)[i] == files[i]);
        if !same_place(files[i].path, path) {
            lemma_longer_search(files, more, path, i + 1);
        }
    }
}

/// Every window of a session comes back, in order: previews of their files, whether these are
/// there or not, each file once, and terminals.
pub proof fn law_every_window_comes_back(app: App, panes: Seq<Entry>)
    requires
        app.files.len() + panes.len() <= usize::MAX,
    ensures
        ({
            let first = nothing_restored(app, panes);
            let done = first.with_entries(app.root, panes, 0);
            &&& same_paths(done.files, first.files)
            &&& stack_holds(done.stack, first.files, app.root, panes, panes.len() as int)
        }),
{
    let n = panes.len() as int;
    let missing = missing_paths(panes, app.root, app.files, n);
    let first = nothing_restored(app, panes);
    law_missing_files_get_distinct_keys(panes, app.root, app.files, n);
    lemma_missing_count(panes, app.root, app.files, n);
    let stubs = Seq::new(missing.len(), |i: int| File::missing(missing[i]));
    assert(first.files == app.files + stubs);
    assert forall|j: int| 0 <= j < panes.len() implies is_found(
        first.files,
        app.root,
        #[trigger] panes[j],
    ) by {
        if let Entry::FilePreview { path, .. } = panes[j] {
            let abs = path_joined(app.root, path);
            if is_missing(panes[j], app.root, app.files) {
                assert(holds_place(missing, abs));
                let i = choose|i: int| 0 <= i < missing.len() && same_place(
                    #[trigger] missing[i],
                    abs,
                );
                assert(first.files[app.files.len() + i].path == missing[i]);
                lemma_file_with_path(first.files, abs, 0);
            } else {
                lemma_longer_search(app.files, stubs, abs, 0);
            }
        }
    }
    lemma_entries_come_back(first, first.files, app.root, panes, 0);
}

/// The files that were there keep their places, so that every key stays that of the same path, and
/// those that a session misses follow them, one for each of their paths.
pub proof fn law_old_files_stay_in_front(app: App, panes: Seq<Entry>)
    requires
        app.files.len() + panes.len() <= usize::MAX,
    ensures
        ({
            let missing = missing_paths(panes, app.root, app.files, panes.len() as int);
            let files = windows_restored(app, panes).files;
            &&& files.len() == app.files.len() + missing.len()
            &&& forall|i: int|
                0 <= i < app.files.len() ==> (#[trigger] files[i]).path == app.files[i].path
            &&& forall|i: int|
                0 <= i < missing.len() ==> #[trigger] files[app.files.len() + i].path == missing[i]
        }),
{
    law_every_window_comes_back(app, panes);
    let missing = missing_paths(panes, app.root, app.files, panes.len() as int);
    let first = nothing_restored(app, panes);
    let files = windows_restored(app, panes).files;
    assert(same_paths(files, first.files));
    assert forall|i: int| 0 <= i < app.files.len() implies (#[trigger] files[i]).path
        == app.files[i].path by {
        assert(first.files[i] == app.files[i]);
    }
    assert forall|i: int| 0 <= i < missing.len() implies #[trigger] files[app.files.len() + i].path
        == missing[i] by {
        assert(first.files[app.files.len() + i] == File::missing(missing[i]));
    }
}

/// There are no more missing files than windows.
proof fn lemma_missing_count(panes: Seq<Entry>, root: Seq<char>, files: Seq<File>, n: int)
    requires
        0 <= n <= panes.len(),
    ensures
        missing_paths(panes, root, files, n).len() <= n,
    decreases n,
{
    if n > 0 {
        lemma_missing_count(panes, root, files, n - 1);
        let before = missing_paths(panes, root, files, n - 1);
        if let Entry::FilePreview { path, .. } = panes[n - 1] {
            lemma_place_for(before, path_joined(root, path), 0);
        }
    }
}

/// The windows among the first `n` that are saved.
pub open spec fn saved_windows(app: App, n: int) -> Seq<Window>
    decreases n,
{
    if n <= 0 {
        Seq::empty()
    } else {
        match entry_of(app, app.panes.stack[n - 1]) {
            Some(_) => saved_windows(app, n - 1).push(app.panes.stack[n - 1]),
            None => saved_windows(app, n - 1),
        }
    }
}

/// Each saved window has its entry.
proof fn lemma_saved_windows(app: App, n: int)
    requires
        0 <= n <= app.panes.stack.len(),
    ensures
        saved_windows(app, n).len() == saved_panes(app, n).len() <= n,
        forall|i: int|
            0 <= i < saved_windows(app, n).len() ==> entry_of(
                app,
                #[trigger] saved_windows(app, n)[i],
            ) == Some(saved_panes(app, n)[i]) && app.panes.stack.contains(saved_windows(app, n)[i]),
    decreases n,
{
    if n > 0 {
        lemma_saved_windows(app, n - 1);
        assert(app.panes.stack.contains(app.panes.stack[n - 1]));
    }
}

/// What is saved comes back: where a session is put into effect with the same files, at distinct
/// places, the windows that were saved are there again, in order, previews of the same files. The
/// terminal of an editor comes back as the preview of its file, unless the file has one already.
pub proof fn law_saved_windows_come_back(app: App, other: App)
    requires
        other.files == app.files,
        other.root == app.root,
        app.files.len() + app.panes.stack.len() <= usize::MAX,
        forall|i: int, j: int|
            0 <= i < j < app.files.len() ==> !same_place(
                (#[trigger] app.files[i]).path,
                (#[trigger] app.files[j]).path,
            ),
        forall|i: int|
            0 <= i < app.panes.stack.len() ==> window_leads_back(
                app,
                #[trigger] app.panes.stack[i],
            ),
    ensures
        ({
            let n = app.panes.stack.len() as int;
            let panes = saved_panes(app, n);
            let windows = saved_windows(app, n);
            let done = nothing_restored(other, panes).with_entries(other.root, panes, 0);
            &&& same_paths(done.files, app.files)
            &&& panes.len() == windows.len()
            &&& done.stack.len() == places_taken(app.files, app.root, panes, panes.len() as int)
            &&& forall|i: int|
                0 <= i < windows.len() ==> if panes[i] is FilePreview {
                    &&& saved_key(app, #[trigger] windows[i]) matches Some(key)
                    &&& done.stack.contains(Window::FilePreview(key))
                    &&& !repeats(app.files, app.root, panes, i) ==> done.stack[places_taken(
                        app.files,
                        app.root,
                        panes,
                        i,
                    )] == Window::FilePreview(key)
                } else {
                    done.stack[places_taken(app.files, app.root, panes, i)] is Terminal
                }
        }),
{
    let n = app.panes.stack.len() as int;
    let panes = saved_panes(app, n);
    let windows = saved_windows(app, n);
    lemma_saved_windows(app, n);
    law_every_window_comes_back(other, panes);
    assert forall|i: int| 0 <= i < windows.len() && panes[i] is FilePreview implies {
        &&& (#[trigger] saved_key(app, windows[i])) matches Some(key)
        &&& key.0 < app.files.len()
        &&& file_with_path(app.files, path_joined(app.root, panes[i]->path), 0) == Some(
            key.0 as int,
        )
    } by {
        let w = windows[i];
        assert(entry_of(app, w) == Some(panes[i]));
        let key = saved_key(app, w)->0;
        let rel = panes[i]->path;
        assert(preview_path(app, key) == Some(rel));
        let s = choose|s: int| 0 <= s < app.panes.stack.len() && app.panes.stack[s] == w;
        assert(window_leads_back(app, app.panes.stack[s]));
        assert(leads_back(app, key));
        let abs = path_joined(app.root, rel);
        assert(same_place(abs, app.files[key.0 as int].path));
        lemma_file_with_path(app.files, abs, 0);
        let k = file_with_path(app.files, abs, 0)->0;
        if k < key.0 {
            assert(!same_place(app.files[k].path, app.files[key.0 as int].path));
        }
        if key.0 < k {
            assert(!same_place(app.files[key.0 as int].path, app.files[k].path));
        }
    }
    assert forall|i: int|
        0 <= i < panes.len() && (#[trigger] panes[i]) is FilePreview implies file_with_path(
        app.files,
        path_joined(app.root, panes[i]->path),
        0,
    ) is Some by {
        assert(saved_key(app, windows[i]) is Some);
    }
    lemma_nothing_missing(panes, app.root, app.files, panes.len() as int);
    let first = nothing_restored(other, panes);
    assert(first.files =~= app.files);
    let done = first.with_entries(other.root, panes, 0);
    assert forall|i: int| 0 <= i < windows.len() implies if panes[i] is FilePreview {
        &&& saved_key(app, #[trigger] windows[i]) matches Some(key)
        &&& done.stack.contains(Window::FilePreview(key))
        &&& !repeats(app.files, app.root, panes, i) ==> done.stack[places_taken(
            app.files,
            app.root,
            panes,
            i,
        )] == Window::FilePreview(key)
    } else {
        done.stack[places_taken(app.files, app.root, panes, i)] is Terminal
    } by {
        if panes[i] is FilePreview {
            assert(saved_key(app, windows[i]) is Some);
        } else {
            assert(!repeats(app.files, app.root, panes, i));
        }
    }
}

/// Where all files are found, none is missing.
proof fn lemma_nothing_missing(panes: Seq<Entry>, root: Seq<char>, files: Seq<File>, n: int)
    requires
        0 <= n <= panes.len(),
        forall|i: int|
            0 <= i < panes.len() && (#[trigger] panes[i]) is FilePreview ==> file_with_path(
                files,
                path_joined(root, panes[i]->path),
                0,
            ) is Some,
    ensures
        missing_paths(panes, root, files, n).len() == 0,
    decreases n,
{
    if n > 0 {
        lemma_nothing_missing(panes, root, files, n - 1);
        assert(panes[n - 1] is FilePreview || panes[n - 1] is Terminal);
    }
}

/// Whether a terminal is back that an entry stands for: its program is still to be started, with
/// what was saved of it, and its pane is as large as it was.
pub open spec fn terminal_is_back(r: Restoring, entry: Entry, id: usize) -> bool {
    &&& entry matches Entry::Terminal { command, cwd, is_command_pane, pane_size }
    &&& id < r.next_terminal_id
    &&& r.stack.contains(Window::Terminal(id))
    &&& r.pending.contains_key(id)
    &&& r.pending[id].command == command
    &&& r.pending[id].cwd == cwd
    &&& r.pending[id].is_command_pane == is_command_pane
    &&& r.states.contains_key(Window::Terminal(id))
    &&& r.states[Window::Terminal(id)].pane_size == read_size(pane_size)
}

/// Whether a preview is back that an entry stands for, scrolled as far and as large as it was.
pub open spec fn preview_is_back(r: Restoring, entry: Entry, window: Window) -> bool {
    &&& entry matches Entry::FilePreview { path, scroll, pane_size }
    &&& r.stack.contains(window)
    &&& r.states.contains_key(window)
    &&& r.states[window].scroll == scroll
    &&& r.states[window].pane_size == read_size(pane_size)
}

/// Whether the first `n` windows of a session are back, with what was saved of them.
spec fn are_back(
    r: Restoring,
    files: Seq<File>,
    root: Seq<char>,
    panes: Seq<Entry>,
    n: int,
) -> bool {
    &&& forall|j: int|
        0 <= j < n && (#[trigger] panes[j]) is Terminal ==> exists|id: usize| #[trigger]
            terminal_is_back(r, panes[j], id)
    &&& forall|j: int|
        0 <= j < n && (#[trigger] panes[j]) is FilePreview && !repeats(files, root, panes, j)
            ==> preview_is_back(r, panes[j], preview_of(files, root, panes[j]))
}

/// One more window is back, and leaves those that were as they are.
proof fn lemma_entry_is_back(
    r: Restoring,
    files: Seq<File>,
    root: Seq<char>,
    panes: Seq<Entry>,
    i: int,
)
    requires
        0 <= i < panes.len(),
        files.len() <= usize::MAX,
        same_paths(r.files, files),
        is_found(files, root, panes[i]),
        stack_holds(r.stack, files, root, panes, i),
        stack_comes_from(r.stack, files, root, panes, i),
        are_back(r, files, root, panes, i),
        0 <= r.next_terminal_id < usize::MAX,
    ensures
        are_back(r.with_entry(root, panes[i]), files, root, panes, i + 1),
{
    let next = r.with_entry(root, panes[i]);
    let window = preview_of(files, root, panes[i]);
    if let Entry::FilePreview { path, .. } = panes[i] {
        let abs = path_joined(root, path);
        lemma_same_search(r.files, files, abs, 0);
        lemma_file_with_path(files, abs, 0);
        if r.stack.contains(window) {
            let s = choose|s: int| 0 <= s < r.stack.len() && r.stack[s] == window;
            assert(r.stack[s] is FilePreview);
        }
        assert(r.stack.contains(window) <==> repeats(files, root, panes, i));
    }
    assert forall|w: Window| #[trigger] r.stack.contains(w) implies next.stack.contains(w) by {
        let s = choose|s: int| 0 <= s < r.stack.len() && r.stack[s] == w;
        assert(next.stack[s] == w);
    }
    if next.stack.len() > r.stack.len() {
        assert(next.stack[r.stack.len() as int] == next.stack.last());
        assert(next.stack.contains(next.stack.last()));
    }
    assert forall|j: int| 0 <= j < i + 1 && (#[trigger] panes[j]) is Terminal implies exists|
        id: usize,
    | #[trigger] terminal_is_back(next, panes[j], id) by {
        if j < i {
            let id = choose|id: usize| #[trigger] terminal_is_back(r, panes[j], id);
            assert(terminal_is_back(next, panes[j], id));
        } else {
            assert(terminal_is_back(next, panes[j], r.next_terminal_id as usize));
        }
    }
    assert forall|j: int|
        0 <= j < i + 1 && (#[trigger] panes[j]) is FilePreview && !repeats(
            files,
            root,
            panes,
            j,
        ) implies preview_is_back(next, panes[j], preview_of(files, root, panes[j])) by {
        if j < i {
            let w = preview_of(files, root, panes[j]);
            assert(preview_is_back(r, panes[j], w));
            assert(r.stack.contains(w));
        }
    }
}

/// The windows from the `i`-th on are back.
proof fn lemma_entries_are_back(
    r: Restoring,
    files: Seq<File>,
    root: Seq<char>,
    panes: Seq<Entry>,
    i: int,
)
    requires
        0 <= i <= panes.len(),
        files.len() <= usize::MAX,
        same_paths(r.files, files),
        forall|j: int| 0 <= j < panes.len() ==> is_found(files, root, #[trigger] panes[j]),
        stack_holds(r.stack, files, root, panes, i),
        stack_comes_from(r.stack, files, root, panes, i),
        are_back(r, files, root, panes, i),
        0 <= r.next_terminal_id,
        r.next_terminal_id + panes.len() - i <= usize::MAX,
    ensures
        are_back(r.with_entries(root, panes, i), files, root, panes, panes.len() as int),
    decreases panes.len() - i,
{
    if i < panes.len() {
        assert(is_found(files, root, panes[i]));
        lemma_entry_comes_back(r, files, root, panes, i);
        lemma_entry_is_back(r, files, root, panes, i);
        lemma_entries_are_back(r.with_entry(root, panes[i]), files, root, panes, i + 1);
    }
}

/// A window that is saved is among those that are.
proof fn lemma_window_is_saved(app: App, n: int, s: int)
    requires
        0 <= s < n <= app.panes.stack.len(),
        entry_of(app, app.panes.stack[s]) is Some,
    ensures
        exists|i: int|
            0 <= i < saved_windows(app, n).len() && #[trigger] saved_windows(app, n)[i]
                == app.panes.stack[s],
    decreases n,
{
    let before = saved_windows(app, n - 1);
    let all = saved_windows(app, n);
    if s < n - 1 {
        lemma_window_is_saved(app, n - 1, s);
        let i = choose|i: int|
            0 <= i < before.len() && #[trigger] before[i] == app.panes.stack[s];
        assert(all[i] == app.panes.stack[s]);
    } else {
        assert(all[before.len() as int] == app.panes.stack[s]);
    }
}

/// Saving a session and putting it into effect brings back what the windows were: a terminal that
/// was running a command is started with the same command in the same directory, and other
/// terminals with a shell there; a preview is scrolled as far as it was; and each is as large.
pub proof fn law_saved_windows_are_what_they_were(app: App, other: App)
    requires
        other.files == app.files,
        other.root == app.root,
        app.files.len() + app.panes.stack.len() <= usize::MAX,
        other.next_terminal_id + app.panes.stack.len() <= usize::MAX,
        forall|i: int, j: int|
            0 <= i < j < app.files.len() ==> !same_place(
                (#[trigger] app.files[i]).path,
                (#[trigger] app.files[j]).path,
            ),
        forall|i: int|
            0 <= i < app.panes.stack.len() ==> window_leads_back(
                app,
                #[trigger] app.panes.stack[i],
            ),
    ensures
        ({
            let n = app.panes.stack.len() as int;
            let panes = saved_panes(app, n);
            let windows = saved_windows(app, n);
            let back = windows_restored(other, panes);
            &&& forall|s: int, id: usize|
                0 <= s < n && #[trigger] app.panes.stack[s] == Window::Terminal(id)
                    && #[trigger] app.terminals.contains_key(id) && !app.terminals[id].exited
                    && !app.terminal_to_preview.contains_key(id) ==> exists|again: usize|
                    {
                        &&& #[trigger] back.pending_terminals.contains_key(again)
                        &&& back.panes.stack.contains(Window::Terminal(again))
                        &&& restored(back.pending_terminals[again], true, other.root) == (
                            if app.terminals[id].is_command_pane {
                                app.terminals[id].command
                            } else {
                                None
                            },
                            app.terminals[id].cwd,
                        )
                        &&& back.panes.state_of(Window::Terminal(again)).pane_size
                            == app.panes.state_of(Window::Terminal(id)).pane_size
                    }
            &&& forall|i: int|
                0 <= i < windows.len() && (#[trigger] windows[i]) is FilePreview && !repeats(
                    app.files,
                    app.root,
                    panes,
                    i,
                ) ==> {
                    &&& back.panes.stack.contains(windows[i])
                    &&& back.panes.state_of(windows[i]).scroll == app.panes.state_of(
                        windows[i],
                    ).scroll
                    &&& back.panes.state_of(windows[i]).pane_size == app.panes.state_of(
                        windows[i],
                    ).pane_size
                }
        }),
{
    let n = app.panes.stack.len() as int;
    let panes = saved_panes(app, n);
    let windows = saved_windows(app, n);
    let first = nothing_restored(other, panes);
    let done = first.with_entries(other.root, panes, 0);
    let back = windows_restored(other, panes);
    lemma_saved_windows(app, n);
    law_saved_windows_come_back(app, other);
    assert forall|i: int| 0 <= i < panes.len() && panes[i] is FilePreview implies {
        &&& (#[trigger] saved_key(app, windows[i])) matches Some(key)
        &&& key.0 < app.files.len()
        &&& file_with_path(app.files, path_joined(app.root, panes[i]->path), 0) == Some(
            key.0 as int,
        )
    } by {
        lemma_saved_file_is_found(app, windows[i], panes[i]);
    }
    assert forall|j: int| 0 <= j < panes.len() implies is_found(
        app.files,
        app.root,
        #[trigger] panes[j],
    ) by {
        if panes[j] is FilePreview {
            assert(saved_key(app, windows[j]) is Some);
        }
    }
    assert forall|j: int|
        0 <= j < panes.len() && (#[trigger] panes[j]) is FilePreview implies file_with_path(
        app.files,
        path_joined(app.root, panes[j]->path),
        0,
    ) is Some by {
        assert(is_found(app.files, app.root, panes[j]));
    }
    lemma_nothing_missing(panes, app.root, app.files, panes.len() as int);
    assert(first.files =~= app.files);
    lemma_entries_are_back(first, app.files, app.root, panes, 0);
    assert forall|s: int, id: usize|
        0 <= s < n && #[trigger] app.panes.stack[s] == Window::Terminal(id)
            && #[trigger] app.terminals.contains_key(id) && !app.terminals[id].exited
            && !app.terminal_to_preview.contains_key(id) implies exists|again: usize|
        {
            &&& #[trigger] back.pending_terminals.contains_key(again)
            &&& back.panes.stack.contains(Window::Terminal(again))
            &&& restored(back.pending_terminals[again], true, other.root) == (
                if app.terminals[id].is_command_pane {
                    app.terminals[id].command
                } else {
                    None
                },
                app.terminals[id].cwd,
            )
            &&& back.panes.state_of(Window::Terminal(again)).pane_size == app.panes.state_of(
                Window::Terminal(id),
            ).pane_size
        } by {
        lemma_window_is_saved(app, n, s);
        let i = choose|i: int|
            0 <= i < windows.len() && #[trigger] windows[i] == app.panes.stack[s];
        assert(entry_of(app, windows[i]) == Some(panes[i]));
        assert(panes[i] is Terminal);
        let again = choose|again: usize| #[trigger] terminal_is_back(done, panes[i], again);
        law_saved_size_reads_back(app.panes.state_of(Window::Terminal(id)).pane_size);
        assert(done.stack.contains(Window::Terminal(again)));
        assert(back.pending_terminals.contains_key(again));
        assert(back.panes.stack == done.stack);
    }
    assert forall|i: int|
        0 <= i < windows.len() && (#[trigger] windows[i]) is FilePreview && !repeats(
            app.files,
            app.root,
            panes,
            i,
        ) implies {
        &&& back.panes.stack.contains(windows[i])
        &&& back.panes.state_of(windows[i]).scroll == app.panes.state_of(windows[i]).scroll
        &&& back.panes.state_of(windows[i]).pane_size == app.panes.state_of(windows[i]).pane_size
    } by {
        assert(entry_of(app, windows[i]) == Some(panes[i]));
        assert(saved_key(app, windows[i]) is Some);
        let w = preview_of(app.files, app.root, panes[i]);
        assert(w == windows[i]);
        assert(preview_is_back(done, panes[i], w));
        law_saved_size_reads_back(app.panes.state_of(windows[i]).pane_size);
    }
}

/// The file that a window was saved with is found again.
proof fn lemma_saved_file_is_found(app: App, w: Window, entry: Entry)
    requires
        app.files.len() <= usize::MAX,
        entry_of(app, w) == Some(entry),
        entry is FilePreview,
        app.panes.stack.contains(w),
        forall|i: int, j: int|
            0 <= i < j < app.files.len() ==> !same_place(
                (#[trigger] app.files[i]).path,
                (#[trigger] app.files[j]).path,
            ),
        forall|i: int|
            0 <= i < app.panes.stack.len() ==> window_leads_back(
                app,
                #[trigger] app.panes.stack[i],
            ),
    ensures
        saved_key(app, w) matches Some(key) && key.0 < app.files.len() && file_with_path(
            app.files,
            path_joined(app.root, entry->path),
            0,
        ) == Some(key.0 as int),
{
    let key = saved_key(app, w)->0;
    let rel = entry->path;
    assert(preview_path(app, key) == Some(rel));
    let s = choose|s: int| 0 <= s < app.panes.stack.len() && app.panes.stack[s] == w;
    assert(window_leads_back(app, app.panes.stack[s]));
    assert(leads_back(app, key));
    let abs = path_joined(app.root, rel);
    assert(same_place(abs, app.files[key.0 as int].path));
    lemma_file_with_path(app.files, abs, 0);
    let k = file_with_path(app.files, abs, 0)->0;
    if k < key.0 {
        assert(!same_place(app.files[k].path, app.files[key.0 as int].path));
    }
    if key.0 < k {
        assert(!same_place(app.files[key.0 as int].path, app.files[k].path));
    }
}

} // verus!
