//! Watching the files on disk: what happened to a path within a short time counts as one change.

use vstd::prelude::*;
use crate::bytes::same_text;
use crate::effect::Continuation;
use crate::keyed::{KeyedMap, MapKey, distinct_keys};
use crate::paths::{
    first_component, head, path_below, path_components, same_path, same_place, strip_prefix,
};
use crate::session_apply::{holds_place, is_listed};
use crate::session_time::Nanos;
use crate::state::{File, LoadedFile, files_of};
use crate::text::{copy_of, texts};

verus! {

/// How long nothing must happen before changes are handed on: fifty milliseconds.
pub const DEBOUNCE: Nanos = 50_000_000;

/// What happened to a path.
#[derive(Clone, Copy, Debug, PartialEq, Eq, Structural)]
pub enum RawKind {
    Created,
    Modified,
    Removed,
}

/// What happened to all paths within a short time.
#[derive(Debug)]
pub struct BatchedWatchEvent {
    pub modified: Vec<String>,
    pub created: Vec<String>,
    pub removed: Vec<String>,
}

/// An interrupt that does nothing: the watcher wakes up by itself.
#[derive(Clone, Copy, Debug, PartialEq, Eq, Structural)]
pub struct NoOpInterrupt;

/// A path that stands for the place it leads to, however it is spelled.
pub struct PlacePath {
    pub text: String,
}

impl MapKey for PlacePath {
    type Id = Seq<Seq<char>>;

    open spec fn id(&self) -> Seq<Seq<char>> {
        path_components(self.text@)
    }

    fn same_id(&self, other: &Self) -> (r: bool) {
        same_path(self.text.as_str(), other.text.as_str())
    }

    fn duplicate(&self) -> (r: Self) {
        PlacePath { text: copy_of(self.text.as_str()) }
    }
}

/// What happened to a path in all, where something else may have happened to it before. A path that
/// was created and removed, or removed and created, was replaced, and counts as modified.
pub open spec fn coalesced(before: Option<RawKind>, kind: RawKind) -> RawKind {
    match (before, kind) {
        (Some(RawKind::Created), RawKind::Removed) => RawKind::Modified,
        (Some(RawKind::Removed), RawKind::Created) => RawKind::Modified,
        (Some(RawKind::Created), RawKind::Modified) => RawKind::Created,
        (Some(RawKind::Modified), RawKind::Created) => RawKind::Modified,
        _ => kind,
    }
}

/// What happened to a path in all.
pub fn coalesce(before: Option<RawKind>, kind: RawKind) -> (r: RawKind)
    ensures
        r == coalesced(before, kind),
{
    match (before, kind) {
        (Some(RawKind::Created), RawKind::Removed) => RawKind::Modified,
        (Some(RawKind::Removed), RawKind::Created) => RawKind::Modified,
        (Some(RawKind::Created), RawKind::Modified) => RawKind::Created,
        (Some(RawKind::Modified), RawKind::Created) => RawKind::Modified,
        _ => kind,
    }
}

/// Whether a path is watched: it lies below the root, and not in a directory that is ignored.
pub open spec fn is_watched(path: Seq<char>, root: Seq<char>, ignored: Seq<Seq<char>>) -> bool {
    match path_below(path, root) {
        None => false,
        Some(rel) => match first_component(rel) {
            Some(first) => !ignored.contains(first),
            None => true,
        },
    }
}

/// What happened so far, by places, with one thing more.
pub open spec fn noted(
    pending: Map<Seq<Seq<char>>, RawKind>,
    path: Seq<char>,
    kind: RawKind,
    root: Seq<char>,
    ignored: Seq<Seq<char>>,
) -> Map<Seq<Seq<char>>, RawKind> {
    let place = path_components(path);
    if is_watched(path, root, ignored) {
        pending.insert(
            place,
            coalesced(
                if pending.contains_key(place) {
                    Some(pending[place])
                } else {
                    None
                },
                kind,
            ),
        )
    } else {
        pending
    }
}

/// What happened so far, with the same for the paths from the `i`-th on.
pub open spec fn all_noted(
    pending: Map<Seq<Seq<char>>, RawKind>,
    paths: Seq<Seq<char>>,
    kind: RawKind,
    root: Seq<char>,
    ignored: Seq<Seq<char>>,
    i: int,
) -> Map<Seq<Seq<char>>, RawKind>
    decreases paths.len() - i,
{
    if i >= paths.len() {
        pending
    } else {
        all_noted(
            noted(pending, paths[i], kind, root, ignored),
            paths,
            kind,
            root,
            ignored,
            i + 1,
        )
    }
}

/// The places of some paths.
pub open spec fn places(paths: Seq<String>) -> Seq<Seq<Seq<char>>> {
    Seq::new(paths.len(), |i: int| path_components(paths[i]@))
}

/// Whether some paths are those to which something happened, each once.
pub open spec fn are_those(
    paths: Seq<String>,
    pending: Map<Seq<Seq<char>>, RawKind>,
    kind: RawKind,
) -> bool {
    &&& places(paths).no_duplicates()
    &&& forall|p: Seq<Seq<char>>|
        #[trigger] places(paths).contains(p) <==> pending.contains_key(p) && pending[p] == kind
}

/// What happened so far, with an event. Where events were lost, its paths say nothing.
pub open spec fn event_noted(
    pending: Map<Seq<Seq<char>>, RawKind>,
    kind: Option<RawKind>,
    paths: Seq<Seq<char>>,
    need_rescan: bool,
    root: Seq<char>,
    ignored: Seq<Seq<char>>,
) -> Map<Seq<Seq<char>>, RawKind> {
    match kind {
        Some(kind) if !need_rescan => all_noted(pending, paths, kind, root, ignored, 0),
        _ => pending,
    }
}

/// What is watched, and what happened since changes were handed on last.
pub struct Watch {
    pub root: String,
    pub pending: KeyedMap<PlacePath, RawKind>,
    /// Events were lost, so that the files on disk are to be looked through.
    pub pending_rescan: bool,
}

/// Whether what happened was handed on: the changes, and whether the files on disk are to be looked
/// through. Nothing is handed on where nothing happened.
pub open spec fn handed_on(
    before: Watch,
    after: Watch,
    r: Option<(BatchedWatchEvent, bool)>,
) -> bool {
    let nothing = Map::<Seq<Seq<char>>, RawKind>::empty();
    &&& after.pending@ == nothing
    &&& !after.pending_rescan
    &&& match r {
        Some((batch, rescan)) => {
            &&& rescan == before.pending_rescan
            &&& are_those(batch.created@, before.pending@, RawKind::Created)
            &&& are_those(batch.modified@, before.pending@, RawKind::Modified)
            &&& are_those(batch.removed@, before.pending@, RawKind::Removed)
            &&& rescan || before.pending@ != nothing
        },
        None => before.pending@ == nothing && !before.pending_rescan,
    }
}

/// What the watcher hears of.
pub enum WatchInput {
    /// An event on some paths.
    Event { kind: Option<RawKind>, paths: Vec<String>, need_rescan: bool },
    /// Events cannot be had any more.
    Failed,
    /// Nothing happened for a while.
    Timeout,
}

/// Whether a path is watched.
fn watches(path: &str, root: &str, ignored: &Vec<String>) -> (r: bool)
    ensures
        r == is_watched(path@, root@, texts(ignored@)),
{
    let ghost all = texts(ignored@);
    match strip_prefix(path, root) {
        None => false,
        Some(rel) => match head(rel.as_str()) {
            None => true,
            Some(first) => {
                let mut i: usize = 0;
                while i < ignored.len()
                    invariant
                        i <= ignored@.len(),
                        all == texts(ignored@),
                        path_below(path@, root@) == Some(rel@),
                        first_component(rel@) == Some(first@),
                        forall|j: int| 0 <= j < i ==> all[j] != first@,
                    decreases ignored@.len() - i,
                {
                    assert(all[i as int] == ignored@[i as int]@);
                    if same_text(ignored[i].as_str(), first.as_str()) {
                        assert(all.contains(first@));
                        return false;
                    }
                    i += 1;
                }
                assert(!all.contains(first@));
                true
            },
        },
    }
}

impl Watch {
    /// Watches below a root, where nothing has happened yet.
    pub fn new(root: String) -> (r: Self)
        ensures
            r.root@ == root@,
            r.pending@ == Map::<Seq<Seq<char>>, RawKind>::empty(),
            !r.pending_rescan,
    {
        Watch { root, pending: KeyedMap::new(), pending_rescan: false }
    }

    /// Takes note of an event on some paths. `kind` is `None` for events that change nothing, and
    /// `need_rescan` says that events were lost, in which case the paths say nothing.
    pub fn note_event(
        &mut self,
        kind: Option<RawKind>,
        paths: &Vec<String>,
        need_rescan: bool,
        ignored: &Vec<String>,
    )
        ensures
            final(self).root@ == old(self).root@,
            final(self).pending_rescan == (old(self).pending_rescan || need_rescan),
            final(self).pending@ == event_noted(
                old(self).pending@,
                kind,
                texts(paths@),
                need_rescan,
                old(self).root@,
                texts(ignored@),
            ),
    {
        if need_rescan {
            self.pending_rescan = true;
            return;
        }
        let kind = match kind {
            Some(kind) => kind,
            None => {
                return;
            },
        };
        let ghost all = texts(paths@);
        let ghost first = self.pending@;
        let mut i: usize = 0;
        while i < paths.len()
            invariant
                i <= paths@.len(),
                all == texts(paths@),
                self.root == old(self).root,
                self.pending_rescan == old(self).pending_rescan,
                all_noted(first, all, kind, self.root@, texts(ignored@), 0) == all_noted(
                    self.pending@,
                    all,
                    kind,
                    self.root@,
                    texts(ignored@),
                    i as int,
                ),
            decreases paths@.len() - i,
        {
            assert(all[i as int] == paths@[i as int]@);
            if watches(paths[i].as_str(), self.root.as_str(), ignored) {
                let key = PlacePath { text: copy_of(paths[i].as_str()) };
                let before = match self.pending.get(&key) {
                    Some(kind) => Some(*kind),
                    None => None,
                };
                self.pending.insert(key, coalesce(before, kind));
            }
            i += 1;
        }
    }

    /// Hands on what happened, once nothing has happened for a while: the changes, and whether the
    /// files on disk are to be looked through. The order of the changes is not said.
    pub fn flush(&mut self) -> (r: Option<(BatchedWatchEvent, bool)>)
        ensures
            final(self).root@ == old(self).root@,
            handed_on(*old(self), *final(self), r),
    {
        let n: usize = self.pending.len();
        let ghost order = self.pending.order();
        let ghost pending = self.pending@;
        if n == 0 && !self.pending_rescan {
            assert(pending =~= Map::<Seq<Seq<char>>, RawKind>::empty());
            return None;
        }
        proof {
            if n > 0 {
                crate::keyed::lemma_lookup_hit(order, 0);
                assert(pending.contains_key(order[0].0.id()));
            }
        }
        let created = collect(&self.pending, RawKind::Created);
        let modified = collect(&self.pending, RawKind::Modified);
        let removed = collect(&self.pending, RawKind::Removed);
        let rescan = self.pending_rescan;
        self.pending = KeyedMap::new();
        self.pending_rescan = false;
        Some((BatchedWatchEvent { modified, created, removed }, rescan))
    }

    /// Goes on with what the watcher hears of. Returns what there is to hand on: the changes, and
    /// whether the files on disk are to be looked through.
    pub fn go_on(&mut self, input: &WatchInput, ignored: &Vec<String>) -> (r: (
        Continuation,
        Option<(BatchedWatchEvent, bool)>,
    ))
        ensures
            final(self).root@ == old(self).root@,
            r.0 == if input is Failed {
                Continuation::Restart
            } else {
                Continuation::Continue
            },
            match *input {
                WatchInput::Event { kind, paths, need_rescan } => {
                    &&& r.1 is None
                    &&& final(self).pending_rescan == (old(self).pending_rescan || need_rescan)
                    &&& final(self).pending@ == event_noted(
                        old(self).pending@,
                        kind,
                        texts(paths@),
                        need_rescan,
                        old(self).root@,
                        texts(ignored@),
                    )
                },
                WatchInput::Failed => r.1 is None && *final(self) == *old(self),
                WatchInput::Timeout => handed_on(*old(self), *final(self), r.1),
            },
    {
        match input {
            WatchInput::Event { kind, paths, need_rescan } => {
                self.note_event(*kind, paths, *need_rescan, ignored);
                (Continuation::Continue, None)
            },
            WatchInput::Failed => (Continuation::Restart, None),
            WatchInput::Timeout => (Continuation::Continue, self.flush()),
        }
    }
}

/// The paths to which something happened.
fn collect(pending: &KeyedMap<PlacePath, RawKind>, kind: RawKind) -> (r: Vec<String>)
    ensures
        are_those(r@, pending@, kind),
{
    let ghost order = pending.order();
    let n: usize = pending.len();
    let mut out: Vec<String> = Vec::new();
    let mut i: usize = 0;
    assert(places(out@).no_duplicates());
    while i < n
        invariant
            i <= n == order.len(),
            order == pending.order(),
            distinct_keys(order),
            places(out@).no_duplicates(),
            forall|p: Seq<Seq<char>>| #[trigger]
                places(out@).contains(p) <==> exists|j: int|
                    0 <= j < i && (#[trigger] order[j]).0.id() == p && order[j].1 == kind,
        decreases n - i,
    {
        let ghost so_far = out@;
        let (key, value) = pending.entry_at(i);
        if *value == kind {
            out.push(copy_of(key.text.as_str()));
            proof {
                let place = key.id();
                assert(places(out@) =~= places(so_far).push(place));
                assert(!places(so_far).contains(place)) by {
                    if places(so_far).contains(place) {
                        let j = choose|j: int|
                            0 <= j < i && (#[trigger] order[j]).0.id() == place && order[j].1
                                == kind;
                        assert(order[j].0.id() != order[i as int].0.id());
                    }
                }
                assert(places(out@).no_duplicates()) by {
                    assert forall|a: int, b: int|
                        0 <= a < places(out@).len() && 0 <= b < places(out@).len() && a
                            != b implies places(out@)[a] != places(out@)[b] by {
                        if a < so_far.len() {
                            assert(places(so_far).contains(places(so_far)[a]));
                        }
                        if b < so_far.len() {
                            assert(places(so_far).contains(places(so_far)[b]));
                        }
                    }
                }
                assert forall|p: Seq<Seq<char>>| #[trigger]
                    places(out@).contains(p) <==> exists|j: int|
                        0 <= j < i + 1 && (#[trigger] order[j]).0.id() == p && order[j].1
                            == kind by {
                    if places(out@).contains(p) {
                        let k = choose|k: int| 0 <= k < places(out@).len() && places(out@)[k] == p;
                        if k < so_far.len() {
                            assert(places(so_far)[k] == p);
                            assert(places(so_far).contains(p));
                        } else {
                            assert(order[i as int].0.id() == p);
                        }
                    }
                    if exists|j: int|
                        0 <= j < i + 1 && (#[trigger] order[j]).0.id() == p && order[j].1 == kind {
                        let j = choose|j: int|
                            0 <= j < i + 1 && (#[trigger] order[j]).0.id() == p && order[j].1
                                == kind;
                        if j < i {
                            assert(places(so_far).contains(p));
                            let k = choose|k: int|
                                0 <= k < places(so_far).len() && places(so_far)[k] == p;
                            assert(places(out@)[k] == p);
                        } else {
                            assert(places(out@)[so_far.len() as int] == p);
                        }
                    }
                }
            }
        }
        i += 1;
    }
    proof {
        assert forall|p: Seq<Seq<char>>| #[trigger]
            places(out@).contains(p) <==> pending@.contains_key(p) && pending@[p] == kind by {
            if places(out@).contains(p) {
                let j = choose|j: int|
                    0 <= j < n && (#[trigger] order[j]).0.id() == p && order[j].1 == kind;
                crate::keyed::lemma_lookup_hit(order, j);
            }
            if pending@.contains_key(p) && pending@[p] == kind {
                crate::keyed::lemma_lookup_some(order, p);
            }
        }
    }
    out
}

/// What a [`BatchedWatchEvent`] stands for.
#[verifier::ext_equal]
pub struct Batch {
    pub modified: Seq<Seq<char>>,
    pub created: Seq<Seq<char>>,
    pub removed: Seq<Seq<char>>,
}

impl View for BatchedWatchEvent {
    type V = Batch;

    open spec fn view(&self) -> Batch {
        Batch {
            modified: texts(self.modified@),
            created: texts(self.created@),
            removed: texts(self.removed@),
        }
    }
}

/// Whether a file of a list is there and at a place.
pub open spec fn is_active(files: Seq<File>, path: Seq<char>) -> bool {
    exists|i: int|
        0 <= i < files.len() && !(#[trigger] files[i]).removed && same_place(files[i].path, path)
}

impl Batch {
    /// Whether anything happened to a path.
    pub open spec fn holds(self, path: Seq<char>) -> bool {
        ||| holds_place(self.created, path)
        ||| holds_place(self.modified, path)
        ||| holds_place(self.removed, path)
    }

    /// Paths from the `i`-th on that are on disk, and not active in the list, were created.
    pub open spec fn with_new(self, on_disk: Seq<Seq<char>>, files: Seq<File>, i: int) -> Batch
        decreases on_disk.len() - i,
    {
        if i >= on_disk.len() {
            self
        } else if !is_active(files, on_disk[i]) && !self.holds(on_disk[i]) {
            (Batch { created: self.created.push(on_disk[i]), ..self }).with_new(
                on_disk,
                files,
                i + 1,
            )
        } else {
            self.with_new(on_disk, files, i + 1)
        }
    }

    /// Files from the `i`-th on that are active in the list, and not on disk, were removed.
    pub open spec fn with_gone(self, on_disk: Seq<Seq<char>>, files: Seq<File>, i: int) -> Batch
        decreases files.len() - i,
    {
        if i >= files.len() {
            self
        } else if !files[i].removed && !holds_place(on_disk, files[i].path) && !self.holds(
            files[i].path,
        ) {
            (Batch { removed: self.removed.push(files[i].path), ..self }).with_gone(
                on_disk,
                files,
                i + 1,
            )
        } else {
            self.with_gone(on_disk, files, i + 1)
        }
    }

    /// What happened, with what can be told from the files on disk.
    pub open spec fn reconciled(self, on_disk: Seq<Seq<char>>, files: Seq<File>) -> Batch {
        self.with_new(on_disk, files, 0).with_gone(on_disk, files, 0)
    }
}

/// Whether a file of a list is there and at a place.
fn active_in_list(files: &Vec<LoadedFile>, path: &str) -> (r: bool)
    ensures
        r == is_active(files_of(files@), path@),
{
    let ghost all = files_of(files@);
    let mut i: usize = 0;
    while i < files.len()
        invariant
            i <= files@.len(),
            all == files_of(files@),
            forall|j: int|
                0 <= j < i ==> (#[trigger] all[j]).removed || !same_place(all[j].path, path@),
        decreases files@.len() - i,
    {
        assert(all[i as int] == files@[i as int]@);
        if !files[i].removed && same_path(files[i].path.as_str(), path) {
            return true;
        }
        i += 1;
    }
    false
}

impl BatchedWatchEvent {
    /// Whether anything happened to a path.
    fn holds_path(&self, path: &str) -> (r: bool)
        ensures
            r == self@.holds(path@),
    {
        is_listed(&self.created, path) || is_listed(&self.modified, path) || is_listed(
            &self.removed,
            path,
        )
    }

    /// Adds what can be told from the files on disk, after events were lost: files on disk but not
    /// active in the list were created, and active ones whose path is gone from disk were removed.
    /// What is known to have happened to a path already stays as it is.
    pub fn reconcile_into(&mut self, on_disk: &Vec<String>, files: &Vec<LoadedFile>)
        ensures
            final(self)@ == old(self)@.reconciled(texts(on_disk@), files_of(files@)),
    {
        let ghost disk = texts(on_disk@);
        let ghost all = files_of(files@);
        let ghost first = self@;
        let mut i: usize = 0;
        while i < on_disk.len()
            invariant
                i <= on_disk@.len(),
                disk == texts(on_disk@),
                all == files_of(files@),
                first.with_new(disk, all, 0) == self@.with_new(disk, all, i as int),
            decreases on_disk@.len() - i,
        {
            assert(disk[i as int] == on_disk@[i as int]@);
            let path = on_disk[i].as_str();
            if !active_in_list(files, path) && !self.holds_path(path) {
                let ghost before = self@;
                self.created.push(copy_of(path));
                assert(self@ =~= (Batch { created: before.created.push(path@), ..before }));
            }
            i += 1;
        }
        let ghost second = self@;
        let mut i: usize = 0;
        while i < files.len()
            invariant
                i <= files@.len(),
                disk == texts(on_disk@),
                all == files_of(files@),
                second.with_gone(disk, all, 0) == self@.with_gone(disk, all, i as int),
            decreases files@.len() - i,
        {
            assert(all[i as int] == files@[i as int]@);
            let path = files[i].path.as_str();
            if !files[i].removed && !is_listed(on_disk, path) && !self.holds_path(path) {
                let ghost before = self@;
                self.removed.push(copy_of(path));
                assert(self@ =~= (Batch { removed: before.removed.push(path@), ..before }));
            }
            i += 1;
        }
    }
}

/// What a batch holds, it holds with more in it.
proof fn lemma_still_holds(list: Seq<Seq<char>>, more: Seq<char>, path: Seq<char>)
    ensures
        holds_place(list, path) ==> holds_place(list.push(more), path),
        same_place(more, path) ==> holds_place(list.push(more), path),
{
    let longer = list.push(more);
    if holds_place(list, path) {
        let i = choose|i: int| 0 <= i < list.len() && same_place(#[trigger] list[i], path);
        assert(same_place(longer[i], path));
    }
    if same_place(more, path) {
        assert(same_place(longer[list.len() as int], path));
    }
}

/// Paths on disk that are not active are accounted for.
proof fn lemma_new_files_noted(
    b: Batch,
    on_disk: Seq<Seq<char>>,
    files: Seq<File>,
    i: int,
    path: Seq<char>,
)
    requires
        0 <= i,
    ensures
        b.holds(path) ==> b.with_new(on_disk, files, i).holds(path),
        (exists|j: int| i <= j < on_disk.len() && #[trigger] on_disk[j] == path) && !is_active(
            files,
            path,
        ) ==> b.with_new(on_disk, files, i).holds(path),
    decreases on_disk.len() - i,
{
    if i < on_disk.len() {
        let next = if !is_active(files, on_disk[i]) && !b.holds(on_disk[i]) {
            Batch { created: b.created.push(on_disk[i]), ..b }
        } else {
            b
        };
        lemma_still_holds(b.created, on_disk[i], path);
        lemma_new_files_noted(next, on_disk, files, i + 1, path);
        if on_disk[i] == path && !is_active(files, path) {
            assert(next.holds(path));
        }
    }
}

/// Active files that are gone from disk are accounted for.
proof fn lemma_gone_files_noted(
    b: Batch,
    on_disk: Seq<Seq<char>>,
    files: Seq<File>,
    i: int,
    path: Seq<char>,
)
    requires
        0 <= i,
    ensures
        b.holds(path) ==> b.with_gone(on_disk, files, i).holds(path),
        (exists|j: int|
            i <= j < files.len() && (#[trigger] files[j]).path == path && !files[j].removed)
            && !holds_place(on_disk, path) ==> b.with_gone(on_disk, files, i).holds(path),
    decreases files.len() - i,
{
    if i < files.len() {
        let next = if !files[i].removed && !holds_place(on_disk, files[i].path) && !b.holds(
            files[i].path,
        ) {
            Batch { removed: b.removed.push(files[i].path), ..b }
        } else {
            b
        };
        lemma_still_holds(b.removed, files[i].path, path);
        lemma_gone_files_noted(next, on_disk, files, i + 1, path);
        if files[i].path == path && !files[i].removed && !holds_place(on_disk, path) {
            assert(next.holds(path));
        }
    }
}

/// After events were lost, nothing is missed: every path on disk is active in the list or accounted
/// for, every active file is on disk or accounted for, and what was known stays known.
pub proof fn law_rescan_misses_nothing(
    b: Batch,
    on_disk: Seq<Seq<char>>,
    files: Seq<File>,
    path: Seq<char>,
)
    ensures
        on_disk.contains(path) && !is_active(files, path) ==> b.reconciled(on_disk, files).holds(
            path,
        ),
        (exists|j: int|
            0 <= j < files.len() && (#[trigger] files[j]).path == path && !files[j].removed)
            && !holds_place(on_disk, path) ==> b.reconciled(on_disk, files).holds(path),
        b.holds(path) ==> b.reconciled(on_disk, files).holds(path),
{
    lemma_new_files_noted(b, on_disk, files, 0, path);
    lemma_gone_files_noted(b.with_new(on_disk, files, 0), on_disk, files, 0, path);
}

} // verus!
