//! What the language server is asked for, and which changes on disk are noted.

use vstd::prelude::*;
use crate::lsp::{LspMessage, RANGE_LINES, RANGE_THRESHOLD, unsent};
use crate::lsp_tokens::line_count;
use crate::lsp_worker::{Queue, is_rust, rust_files};
use crate::paths::{first_component, path_below, path_components};
use crate::state::File;
use crate::watcher::{RawKind, all_noted, event_noted};

verus! {

/// A Rust file that was asked for, and lacks tokens, is open with the server, and the last message
/// asks for all of its tokens under a new number, for whose answer is waited.
pub proof fn law_asked_file_is_requested(q: Queue, files: Seq<File>, i: usize)
    requires
        i < files.len(),
        !files[i as int].removed,
        is_rust(files[i as int].path),
        files[i as int].colors.len() != line_count(files[i as int].text),
        0 <= q.requests.next_id < u64::MAX,
    ensures
        ({
            let id = q.requests.next_id as u64;
            let (next, messages) = q.user_asked(files, i);
            let full = LspMessage::FullRequest { id, file_idx: i };
            &&& next.requests.opened.contains_key(i)
            &&& next.requests.pending.contains_pair(id, (i, false, false))
            &&& next.requests.next_id == id + 1
            &&& !q.requests.opened.contains_key(i) ==> messages == seq![
                LspMessage::DidOpen(i),
                full,
            ]
            &&& q.requests.opened.contains_key(i) && files[i as int].colors.len() == 0
                ==> messages == seq![LspMessage::DidClose(i), LspMessage::DidOpen(i), full]
            &&& q.requests.opened.contains_key(i) && files[i as int].colors.len() > 0 ==> messages
                == seq![full]
            &&& forall|other: u64|
                other != id ==> #[trigger] next.requests.pending.contains_key(other)
                    == q.requests.pending.contains_key(other)
        }),
{
}

/// Nothing is asked for of a file that is not written in Rust, or that has all of its tokens; and
/// one that is gone is closed, where the server has it open.
pub proof fn law_other_files_are_not_requested(q: Queue, files: Seq<File>, i: usize)
    requires
        i < files.len(),
    ensures
        ({
            let file = files[i as int];
            let (next, messages) = q.user_asked(files, i);
            &&& !file.removed && (!is_rust(file.path) || file.colors.len() == line_count(file.text))
                ==> messages.len() == 0 && next == q
            &&& file.removed && q.requests.opened.contains_key(i) ==> messages == seq![
                LspMessage::DidClose(i),
            ] && !next.requests.opened.contains_key(i)
            &&& file.removed && !q.requests.opened.contains_key(i) ==> messages.len() == 0
            &&& file.removed ==> next.requests.pending == q.requests.pending
        }),
{
}

/// Going through the files, the server is asked for the next of them: for the first lines of a long
/// file, where it can give them, and for all of any other. One that is shown is asked for as a
/// whole.
pub proof fn law_next_file_is_gone_through(q: Queue, files: Seq<File>)
    requires
        q.warmup.len() > 0,
        q.warmup[0] < files.len(),
        0 <= q.requests.next_id < u64::MAX,
        files[q.warmup[0] as int].colors.len() == 0,
        line_count(files[q.warmup[0] as int].text) > 0,
    ensures
        ({
            let i = q.warmup[0];
            let file = files[i as int];
            let lines = line_count(file.text);
            let id = q.requests.next_id as u64;
            let (next, messages) = q.next_asked(files);
            let is_range = q.supports_range && lines > RANGE_THRESHOLD && !file.needs_full_load;
            &&& next.warmup == q.warmup.skip(1)
            &&& next.requests.opened.contains_key(i)
            &&& next.requests.pending.contains_pair(id, (i, is_range, !file.needs_full_load))
            &&& messages.len() > 0
            &&& !is_range ==> messages.last() == (LspMessage::FullRequest { id, file_idx: i })
            &&& is_range ==> (messages.last() matches LspMessage::RangeRequest {
                id: number,
                file_idx,
                end_line,
            } && number == id && file_idx == i && end_line <= lines && end_line <= RANGE_LINES && (
            end_line == lines || end_line == RANGE_LINES))
        }),
{
}

/// The files that are gone through are the Rust files, each once and in their order.
pub proof fn law_rust_files_are_gone_through(files: Seq<File>, n: int)
    requires
        0 <= n <= files.len() <= usize::MAX,
    ensures
        forall|i: usize|
            #[trigger] rust_files(files, n).contains(i) <==> i < n && is_rust(files[i as int].path),
        forall|j: int, k: int|
            0 <= j < k < rust_files(files, n).len() ==> rust_files(files, n)[j] < rust_files(
                files,
                n,
            )[k],
    decreases n,
{
    if n > 0 {
        law_rust_files_are_gone_through(files, n - 1);
        let before = rust_files(files, n - 1);
        let after = rust_files(files, n);
        if is_rust(files[n - 1].path) {
            assert forall|i: usize| #[trigger] after.contains(i) <==> i < n && is_rust(
                files[i as int].path,
            ) by {
                if after.contains(i) {
                    let k = choose|k: int| 0 <= k < after.len() && after[k] == i;
                    if k < before.len() {
                        assert(before[k] == i);
                        assert(before.contains(i));
                    }
                }
                if before.contains(i) {
                    let k = choose|k: int| 0 <= k < before.len() && before[k] == i;
                    assert(after[k] == i);
                }
                if i == n - 1 {
                    assert(after[before.len() as int] == i);
                }
            }
            assert forall|j: int, k: int| 0 <= j < k < after.len() implies after[j] < after[k] by {
                assert(before.contains(before[j]));
            }
        }
    }
}

/// A file that is gone through and not answered comes again behind the others, twice; the third
/// time it is given up.
pub proof fn law_unanswered_file_comes_again_twice(q: Queue, i: usize)
    requires
        !q.retries.contains_key(i),
    ensures
        ({
            let first = q.unanswered(i, true);
            let second = first.unanswered(i, true);
            let third = second.unanswered(i, true);
            &&& first.warmup == q.warmup.push(i)
            &&& second.warmup == first.warmup.push(i)
            &&& third.warmup == second.warmup
        }),
{
}

/// The requests that could not be sent are kept, and no others.
pub proof fn law_unsent_requests_are_kept(buffer: Seq<usize>, sent: Seq<bool>, n: int, x: usize)
    requires
        0 <= n <= buffer.len(),
        sent.len() == buffer.len(),
    ensures
        unsent(buffer, sent, n).contains(x) <==> exists|i: int|
            0 <= i < n && #[trigger] buffer[i] == x && !sent[i],
        (forall|i: int| 0 <= i < n ==> !#[trigger] sent[i]) ==> unsent(buffer, sent, n)
            == buffer.take(n),
    decreases n,
{
    if n > 0 {
        law_unsent_requests_are_kept(buffer, sent, n - 1, x);
        let before = unsent(buffer, sent, n - 1);
        let after = unsent(buffer, sent, n);
        if after.contains(x) {
            let k = choose|k: int| 0 <= k < after.len() && after[k] == x;
            if k < before.len() {
                assert(before[k] == x);
                assert(before.contains(x));
            } else {
                assert(buffer[n - 1] == x && !sent[n - 1]);
            }
        }
        if before.contains(x) {
            let k = choose|k: int| 0 <= k < before.len() && before[k] == x;
            assert(after[k] == x);
        }
        if buffer[n - 1] == x && !sent[n - 1] {
            assert(after[before.len() as int] == x);
        }
        if forall|i: int| 0 <= i < n ==> !#[trigger] sent[i] {
            assert(!sent[n - 1]);
            assert(buffer.take(n) =~= buffer.take(n - 1).push(buffer[n - 1]));
        }
    } else {
        assert(buffer.take(n) =~= unsent(buffer, sent, n));
    }
}

/// A change of a path below the root is noted at its place, and nothing else changes. Paths
/// elsewhere and in ignored directories are not noted, nor any where events were lost.
pub proof fn law_changes_below_root_are_noted(
    path: Seq<char>,
    kind: RawKind,
    root: Seq<char>,
    ignored: Seq<Seq<char>>,
    lost: bool,
)
    ensures
        ({
            let none = Map::<Seq<Seq<char>>, RawKind>::empty();
            let after = event_noted(none, Some(kind), seq![path], lost, root, ignored);
            let is_ignored = path_below(path, root) matches Some(rel) && first_component(
                rel,
            ) matches Some(dir) && ignored.contains(dir);
            if lost || path_below(path, root) is None || is_ignored {
                after == none
            } else {
                after == none.insert(path_components(path), kind)
            }
        }),
{
    reveal_with_fuel(all_noted, 2);
}

/// Of two changes of a path the later one counts, with these exceptions: a file that was created
/// stays so when it is written to, and one that was replaced was modified.
pub proof fn law_changes_of_a_path_add_up(
    path: Seq<char>,
    first: RawKind,
    second: RawKind,
    root: Seq<char>,
)
    requires
        path_below(path, root) is Some,
    ensures
        ({
            let none = Map::<Seq<Seq<char>>, RawKind>::empty();
            let ignored = Seq::<Seq<char>>::empty();
            let one = event_noted(none, Some(first), seq![path], false, root, ignored);
            let both = event_noted(one, Some(second), seq![path], false, root, ignored);
            let place = path_components(path);
            &&& both.contains_key(place)
            &&& first == second ==> both[place] == first
            &&& first == RawKind::Created && second == RawKind::Modified ==> both[place]
                == RawKind::Created
            &&& first == RawKind::Modified ==> both[place] == if second == RawKind::Created {
                RawKind::Modified
            } else {
                second
            }
            &&& (first == RawKind::Created && second == RawKind::Removed) || (first
                == RawKind::Removed && second == RawKind::Created) ==> both[place]
                == RawKind::Modified
        }),
{
    reveal_with_fuel(all_noted, 2);
}

} // verus!
