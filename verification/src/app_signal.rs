//! The signals that other parts of the program send to the state.

use vstd::prelude::*;
use crate::app_files::{FileChanges, files_changed};
use crate::app_terminal::save_is_due;
use crate::effect::{Act, Effect, acts, perform};
use crate::input::EventPropagation;
use crate::session_time::Nanos;
use crate::state::{App, AppState};
use crate::theme::optional_text;

verus! {

/// A signal to the state.
pub enum AppSignal {
    /// Files changed on disk.
    FilesChanged(FileChanges),
    /// Open a terminal pane. `cmd = None` means an interactive shell; `cmd = Some(s)` runs
    /// `/bin/sh -c s`. `cwd` is the working directory for the child process.
    OpenTerminal { cmd: Option<String>, cwd: String },
    /// Forward a raw escape sequence (e.g. an OSC 52 clipboard copy emitted by a program in a
    /// terminal pane) to the terminal around this program, which handles it.
    ForwardOscToTerminal(Vec<u8>),
    /// A terminal pane produced output and was drawn anew. Handled like [`AppSignal::Noop`], but
    /// counts as activity where the configuration says so.
    TerminalOutput,
    /// Time has passed.
    Noop,
}

impl Default for AppSignal {
    fn default() -> (r: Self)
        ensures
            r == AppSignal::Noop,
    {
        AppSignal::Noop
    }
}

/// What is to be done from time to time: a session that changed is saved once it has been left
/// alone for a while, and kept requests are sent.
pub open spec fn upkeep(app: App, now: Nanos, before: Seq<Act>) -> Seq<Act> {
    let saved = if save_is_due(app, now) {
        before.push(Act::SaveSession)
    } else {
        before
    };
    saved.push(Act::SendKeptRequests)
}

/// What a signal leads to, behind what is to be done already.
pub open spec fn signalled(
    app: App,
    signal: AppSignal,
    version: u64,
    now: Nanos,
    before: Seq<Act>,
) -> (App, Seq<Act>) {
    match signal {
        AppSignal::FilesChanged(changes) => files_changed(app, changes, version, before),
        AppSignal::OpenTerminal { cmd, cwd } => (
            app,
            before.push(Act::OpenTerminal { cmd: optional_text(cmd), cwd: Some(cwd@) }),
        ),
        AppSignal::ForwardOscToTerminal(bytes) => (app, before.push(Act::WriteOut(bytes@))),
        AppSignal::TerminalOutput => (
            if app.count_render_as_active {
                App { time: app.time.touched(now), ..app }
            } else {
                app
            },
            upkeep(app, now, before),
        ),
        AppSignal::Noop => (app, upkeep(app, now, before)),
    }
}

impl AppState {
    /// Does what is to be done from time to time.
    fn keep_up(&self, now: Nanos, effects: &mut Vec<Effect>)
        ensures
            acts(final(effects)@) == upkeep(self@, now, acts(old(effects)@)),
    {
        if self.session_save_due(now) {
            perform(effects, Effect::SaveSession);
        }
        perform(effects, Effect::SendKeptRequests);
    }

    /// Handles a signal. `version` is the next of the counter of versions of the list of files.
    pub fn handle_signal(
        &mut self,
        signal: AppSignal,
        version: u64,
        now: Nanos,
        effects: &mut Vec<Effect>,
    ) -> (r: EventPropagation)
        requires
            old(self).wf(),
            signal is TerminalOutput ==> old(self)@.time.active_accum + old(self)@.time.accrued(now)
                <= u128::MAX,
        ensures
            ({
                let (app, acts_after) = signalled(
                    old(self)@,
                    signal,
                    version,
                    now,
                    acts(old(effects)@),
                );
                &&& final(self)@ == app
                &&& acts(final(effects)@) == acts_after
            }),
            r == EventPropagation::ConsumedRender,
            final(self).wf(),
    {
        match signal {
            AppSignal::FilesChanged(changes) => {
                self.handle_files_changed(&changes, version, effects);
            },
            AppSignal::OpenTerminal { cmd, cwd } => {
                perform(effects, Effect::OpenTerminal { cmd, cwd: Some(cwd) });
            },
            AppSignal::ForwardOscToTerminal(bytes) => {
                perform(effects, Effect::WriteOut(bytes));
            },
            AppSignal::TerminalOutput => {
                self.keep_up(now, effects);
                self.note_terminal_output(now);
            },
            AppSignal::Noop => {
                self.keep_up(now, effects);
            },
        }
        EventPropagation::ConsumedRender
    }
}

/// A session that has not changed is never saved, and one that changed is, two seconds later.
pub proof fn law_changes_are_saved(app: App, now: Nanos, version: u64, before: Seq<Act>)
    requires
        !before.contains(Act::SaveSession),
    ensures
        signalled(app, AppSignal::Noop, version, now, before).1.contains(Act::SaveSession)
            <==> save_is_due(app, now),
        app.session_dirty_at is None ==> !save_is_due(app, now),
{
    let after = upkeep(app, now, before);
    if save_is_due(app, now) {
        assert(after[before.len() as int] == Act::SaveSession);
    } else {
        assert forall|i: int| 0 <= i < after.len() implies after[i] != Act::SaveSession by {
            if i < before.len() {
                assert(before.contains(before[i]));
            }
        }
    }
}

} // verus!
