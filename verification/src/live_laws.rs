//! What follows changes on disk, answers of the language server, and the programs in terminals.

use vstd::prelude::*;
use crate::app_files::{FileChanges, Listing, change_of, known_file};
use crate::app_terminal::{output_shown, planned, terminal_started};
use crate::browsing_laws::between;
use crate::editing_laws::plain_key;
use crate::effect::{Act, PtyInput};
use crate::geometry::Size;
use crate::input::{InputEvent, MouseInput, MouseInputKind, SpecialKey};
use crate::lsp::LspMessage;
use crate::lsp_tokens::{SemanticToken, decoded, line_count};
use crate::lsp_worker::{Queue, is_rust};
use crate::pane_manager::Window;
use crate::paths::same_place;
use crate::screen::Display;
use crate::session::{Entry, entry_of};
use crate::session_time::Nanos;
use crate::state::{App, File};
use crate::terminal_pane::{TerminalPaneComponent, height_of_slot, terminal_in};

verus! {

/// Whether a path is that of one file of a list, and of no other.
pub open spec fn is_only_at(files: Seq<File>, path: Seq<char>, k: int) -> bool {
    &&& 0 <= k < files.len()
    &&& forall|i: int|
        0 <= i < files.len() ==> (same_place((#[trigger] files[i]).path, path) <==> i == k)
}

/// The only file at a path is found.
proof fn lemma_only_file(
    files: Seq<File>,
    path: Seq<char>,
    k: int,
    removed: Option<bool>,
    i: int,
)
    requires
        is_only_at(files, path, k),
        0 <= i <= files.len(),
    ensures
        known_file(files, files.len() as int, path, removed, i) == if i <= k && (removed is None
            || removed == Some(files[k].removed)) {
            Some(k)
        } else {
            None
        },
    decreases files.len() - i,
{
    if i < files.len() {
        assert(same_place(files[i].path, path) <==> i == k);
        lemma_only_file(files, path, k, removed, i + 1);
    }
}

/// A path of no file is not found.
proof fn lemma_no_file(files: Seq<File>, path: Seq<char>, removed: Option<bool>, i: int)
    requires
        forall|i: int| 0 <= i < files.len() ==> !same_place((#[trigger] files[i]).path, path),
        0 <= i <= files.len(),
    ensures
        known_file(files, files.len() as int, path, removed, i) is None,
    decreases files.len() - i,
{
    if i < files.len() {
        assert(!same_place(files[i].path, path));
        lemma_no_file(files, path, removed, i + 1);
    }
}

/// Whether a file has a text, and no tokens of an older one.
pub open spec fn holds_text(file: File, text: Seq<char>) -> bool {
    file.text == text && file.colors.len() == 0
}

/// Whether nothing but one file of a list differs from those of another.
pub open spec fn same_but_file(a: Seq<File>, b: Seq<File>, k: int) -> bool {
    a.len() == b.len() && forall|i: int| 0 <= i < a.len() && i != k ==> #[trigger] a[i] == b[i]
}

/// A file that was modified shows its new text, and its tokens are asked for; nothing else changes.
pub proof fn law_modified_file_shows_new_text(
    l: Listing,
    c: FileChanges,
    text: Seq<char>,
    k: int,
)
    requires
        c.removed@.len() == 0,
        c.created@.len() == 0,
        c.modified@.len() == 1,
        change_of(c.modified@[0]).1 == Some(text),
        is_only_at(l.files, change_of(c.modified@[0]).0, k),
        !l.files[k].removed,
    ensures
        holds_text(l.changed(c).files[k], text),
        !l.changed(c).files[k].removed,
        same_but_file(l.changed(c).files, l.files, k),
        l.changed(c).acts == l.acts.push(Act::RequestTokens(k as usize)),
{
    reveal_with_fuel(Listing::all_removed, 2);
    reveal_with_fuel(Listing::all_modified, 3);
    reveal_with_fuel(Listing::all_created, 2);
    lemma_only_file(l.files, change_of(c.modified@[0]).0, k, Some(false), 0);
}

/// A file that was removed stays in the list, marked as gone.
pub proof fn law_removed_file_is_marked(l: Listing, c: FileChanges, k: int)
    requires
        c.modified@.len() == 0,
        c.created@.len() == 0,
        c.removed@.len() == 1,
        is_only_at(l.files, c.removed@[0]@, k),
    ensures
        l.changed(c).files[k].removed,
        l.changed(c).files[k].text == l.files[k].text,
        same_but_file(l.changed(c).files, l.files, k),
{
    reveal_with_fuel(Listing::all_removed, 3);
    reveal_with_fuel(Listing::all_modified, 2);
    reveal_with_fuel(Listing::all_created, 2);
    lemma_only_file(l.files, c.removed@[0]@, k, None, 0);
}

/// A file that was created is there with its text: in its old place where it was in the list, and
/// else at the end.
pub proof fn law_created_file_is_there(l: Listing, c: FileChanges, text: Seq<char>)
    requires
        c.modified@.len() == 0,
        c.removed@.len() == 0,
        c.created@.len() == 1,
        change_of(c.created@[0]).1 == Some(text),
    ensures
        ({
            let path = change_of(c.created@[0]).0;
            let after = l.changed(c).files;
            &&& forall|k: int|
                #[trigger] is_only_at(l.files, path, k) ==> holds_text(after[k], text)
                    && !after[k].removed && same_but_file(after, l.files, k)
            &&& (forall|i: int| 0 <= i < l.files.len() ==> !same_place((#[trigger] l.files[i]).path, path))
                ==> {
                &&& after.len() == l.files.len() + 1
                &&& after.take(l.files.len() as int) == l.files
                &&& after.last().path == path
                &&& !after.last().removed
                &&& holds_text(after.last(), text)
            }
        }),
{
    reveal_with_fuel(Listing::all_removed, 2);
    reveal_with_fuel(Listing::all_modified, 2);
    reveal_with_fuel(Listing::all_created, 3);
    let path = change_of(c.created@[0]).0;
    let after = l.changed(c).files;
    assert forall|k: int| #[trigger] is_only_at(l.files, path, k) implies holds_text(after[k], text)
        && !after[k].removed && same_but_file(after, l.files, k) by {
        lemma_only_file(l.files, path, k, Some(true), 0);
        lemma_only_file(l.files, path, k, Some(false), 0);
    }
    if forall|i: int| 0 <= i < l.files.len() ==> !same_place((#[trigger] l.files[i]).path, path) {
        lemma_no_file(l.files, path, Some(true), 0);
        lemma_no_file(l.files, path, Some(false), 0);
        assert(after.take(l.files.len() as int) =~= l.files);
    }
}

/// The tokens of a file that come in answer to a request for it become the tokens of that very
/// file: what was asked for last is answered under its own id, and no other file changes.
pub proof fn law_answer_colors_the_file_asked_for(
    q: Queue,
    files: Seq<File>,
    file_idx: usize,
    data: Seq<SemanticToken>,
    types: Seq<Seq<char>>,
)
    requires
        file_idx < files.len(),
        !files[file_idx as int].removed,
        is_rust(files[file_idx as int].path),
        files[file_idx as int].colors.len() != line_count(files[file_idx as int].text),
        0 <= q.requests.next_id <= u64::MAX,
    ensures
        ({
            let (next, messages) = q.user_asked(files, file_idx);
            let id = q.requests.next_id as u64;
            let (_, after, changed) = next.answer(files, id, Some(data), types);
            &&& messages.len() > 0
            &&& messages.last() == (LspMessage::FullRequest { id, file_idx })
            &&& changed
            &&& after.len() == files.len()
            &&& after[file_idx as int].colors == decoded(files[file_idx as int].text, types, data)
            &&& after[file_idx as int].text == files[file_idx as int].text
            &&& same_but_file(after, files, file_idx as int)
        }),
{
}

/// A file whose text changed is opened anew before its tokens are asked for, so that the server
/// sees the new text, and one that is gone is closed.
pub proof fn law_server_sees_changed_file(q: Queue, files: Seq<File>, file_idx: usize)
    requires
        file_idx < files.len(),
    ensures
        ({
            let file = files[file_idx as int];
            let (next, messages) = q.user_asked(files, file_idx);
            &&& !file.removed && is_rust(file.path) && file.colors.len() == 0 && line_count(
                file.text,
            ) > 0 ==> {
                &&& messages.len() >= 2
                &&& messages[messages.len() - 2] == LspMessage::DidOpen(file_idx)
                &&& messages.last() is FullRequest
                &&& q.requests.opened.contains_key(file_idx) ==> messages[0]
                    == LspMessage::DidClose(file_idx)
                &&& next.requests.opened.contains_key(file_idx)
            }
            &&& file.removed ==> {
                &&& !next.requests.opened.contains_key(file_idx)
                &&& q.requests.opened.contains_key(file_idx) ==> messages == seq![
                    LspMessage::DidClose(file_idx),
                ]
            }
            &&& !file.removed && !is_rust(file.path) ==> messages.len() == 0
        }),
{
}

/// A terminal that is opened for a command runs that command in the directory asked for, stands in
/// front with the focus and the keyboard, and is saved as what it is.
pub proof fn law_opened_terminal_runs_command(
    app: App,
    cmd: Option<Seq<char>>,
    cwd: Option<Seq<char>>,
    window: Size,
    screen: Display,
    now: Nanos,
)
    requires
        app.next_terminal_id < usize::MAX,
        !app.terminal_to_preview.contains_key(app.next_terminal_id),
    ensures
        ({
            let (plan, next) = planned(app, cmd, cwd, None, window);
            let (after, _) = terminal_started(next, plan, screen, None, now);
            let id = app.next_terminal_id;
            let at = Window::Terminal(id);
            let dir = match cwd {
                Some(dir) => dir,
                None => app.root,
            };
            let runs = cmd is Some && cmd->0.len() > 0;
            &&& plan.cwd == cwd
            &&& runs ==> plan.command == cmd
            &&& !runs ==> plan.command is None
            &&& after.next_terminal_id == id + 1
            &&& after.terminals.contains_key(id)
            &&& after.terminals[id].screen == screen
            &&& after.panes.stack[0] == at
            &&& after.panes.focused == Some(at)
            &&& after.terminal_grabbed
            &&& entry_of(after, at) matches Some(Entry::Terminal { command, cwd, is_command_pane, .. })
                && command == (if runs {
                cmd
            } else {
                None
            }) && cwd == dir && is_command_pane == runs
        }),
{
}

/// What a program writes is what its terminal holds from then on, with the last title that it gave,
/// and no other terminal changes.
pub proof fn law_output_goes_to_its_terminal(
    app: App,
    id: usize,
    screen: Display,
    titles: Seq<Seq<char>>,
    other: usize,
)
    requires
        app.terminals.contains_key(id),
    ensures
        ({
            let after = output_shown(app, id, screen, titles);
            &&& after.terminals.contains_key(id)
            &&& after.terminals[id].screen == screen
            &&& titles.len() > 0 ==> after.terminals[id].title == Some(titles[titles.len() - 1])
            &&& titles.len() == 0 ==> after.terminals[id].title == app.terminals[id].title
            &&& app.terminals[id].scroll_offset == 0 ==> after.terminals[id].scroll_offset == 0
            &&& other != id ==> {
                &&& after.terminals.contains_key(other) == app.terminals.contains_key(other)
                &&& app.terminals.contains_key(other) ==> after.terminals[other]
                    == app.terminals[other]
            }
        }),
{
}

/// How far back a terminal is scrolled after an event.
pub open spec fn scroll_after(
    c: TerminalPaneComponent,
    app: App,
    id: usize,
    event: InputEvent,
) -> int {
    c.outcome(app, event, None, None, 0).app.terminals[id].scroll_offset as int
}

/// While a program does not have the keyboard, the keys and the wheel move the view through the
/// history: up is back, by a line, three lines or the height of the pane, and never beyond its
/// ends. Enter goes to the bottom and gives the program the keyboard, and the wheel backward takes
/// it.
pub proof fn law_keys_move_through_history(
    c: TerminalPaneComponent,
    app: App,
    id: usize,
    up: MouseInput,
    down: MouseInput,
)
    requires
        terminal_in(app, c.id) == Some(id),
        app.terminals.contains_key(id),
        !app.terminals[id].exited,
        !app.terminal_grabbed,
        app.terminals[id].scroll_offset <= app.terminals[id].screen.scrollback.len() < usize::MAX,
        up.kind == MouseInputKind::ScrollUp && up.maybe_modifier_keys is None,
        down.kind == MouseInputKind::ScrollDown && down.maybe_modifier_keys is None,
    ensures
        ({
            let t = app.terminals[id];
            let at = t.scroll_offset as int;
            let most = t.screen.scrollback.len() as int;
            let page = height_of_slot(app, c.slot as int);
            let enter = c.outcome(app, plain_key(SpecialKey::Enter), None, None, 0);
            &&& scroll_after(c, app, id, plain_key(SpecialKey::Up)) == between(at + 1, most)
            &&& scroll_after(c, app, id, plain_key(SpecialKey::Down)) == between(at - 1, most)
            &&& 0 <= page ==> scroll_after(c, app, id, plain_key(SpecialKey::PageUp)) == between(
                at + page,
                most,
            )
            &&& 0 <= page ==> scroll_after(c, app, id, plain_key(SpecialKey::PageDown)) == between(
                at - page,
                most,
            )
            &&& enter.app.terminal_grabbed && enter.app.terminals[id].scroll_offset == 0
            &&& !t.screen.alternate && most > 0 ==> {
                &&& scroll_after(c, app, id, InputEvent::Mouse(up)) == between(at + 3, most)
                &&& scroll_after(c, app, id, InputEvent::Mouse(down)) == between(at - 3, most)
                &&& !c.outcome(app, InputEvent::Mouse(up), None, None, 0).app.terminal_grabbed
            }
        }),
{
}

/// A text that is pasted into a terminal that has the keyboard goes to its program as it is,
/// between the marks of a paste where the program asked for them.
pub proof fn law_paste_goes_to_program(
    c: TerminalPaneComponent,
    app: App,
    id: usize,
    text: String,
    now: Nanos,
)
    requires
        terminal_in(app, c.id) == Some(id),
        app.terminals.contains_key(id),
        !app.terminals[id].exited,
        app.terminal_grabbed,
    ensures
        ({
            let o = c.outcome(app, InputEvent::BracketedPaste(text), None, None, now);
            let bytes = vstd::utf8::encode_utf8(text@);
            &&& o.app == app
            &&& o.acts.len() == 1
            &&& o.acts[0] matches Act::Pty { id: to, event: PtyInput::Write(sent) }
            &&& to == id
            &&& !app.terminals[id].screen.bracketed_paste ==> sent == bytes
            &&& app.terminals[id].screen.bracketed_paste ==> {
                &&& sent.len() == bytes.len() + 12
                &&& sent.subrange(6, 6 + bytes.len() as int) == bytes
                &&& sent[0] == 0x1b && sent[1] == '[' as u8 && sent[2] == '2' as u8 && sent[3]
                    == '0' as u8 && sent[4] == '0' as u8 && sent[5] == '~' as u8
                &&& sent[sent.len() - 6] == 0x1b && sent[sent.len() - 5] == '[' as u8
                    && sent[sent.len() - 4] == '2' as u8 && sent[sent.len() - 3] == '0' as u8
                    && sent[sent.len() - 2] == '1' as u8 && sent[sent.len() - 1] == '~' as u8
            }
        }),
{
    let o = c.outcome(app, InputEvent::BracketedPaste(text), None, None, now);
    let bytes = vstd::utf8::encode_utf8(text@);
    if let Act::Pty { id: to, event: PtyInput::Write(sent) } = o.acts[0] {
        if app.terminals[id].screen.bracketed_paste {
            assert(sent.subrange(6, 6 + bytes.len() as int) =~= bytes);
        }
    }
}

} // verus!
