//! Opening terminals, what their programs write, and how they end.

use vstd::prelude::*;
use crate::effect::{Act, Effect, PtyInput, PtyInputEvent, acts, perform};
use crate::file_name_picker::focused_in_front;
use crate::geometry::Size;
use crate::pane_manager::{PaneSize, Panes, Window, WindowState};
use crate::screen::{Display, PixelChar, Screen, lesser};
use crate::session_time::{MILLISECOND, Nanos, elapsed, time_between};
use crate::state::{App, AppState, Term, TerminalPane, lemma_still_wf, terms_of};
use crate::terminal_pane::lemma_panes_stay_wf;
use crate::text::copy_of;
use crate::theme::optional_text;

verus! {

/// What runs in a terminal: a shell, or a command.
pub enum Program {
    Shell,
    Command(String),
}

/// How a terminal is to be started.
pub struct TerminalPlan {
    pub id: usize,
    /// Whether the terminal comes from an earlier session, and has a window.
    pub restore: bool,
    pub size: Size,
    pub program: Program,
    /// The directory to start in, where one is given.
    pub cwd: Option<String>,
}

/// What a [`TerminalPlan`] stands for. `command` is what runs, where it is no shell.
#[verifier::ext_equal]
pub struct Plan {
    pub id: usize,
    pub restore: bool,
    pub size: Size,
    pub command: Option<Seq<char>>,
    pub cwd: Option<Seq<char>>,
}

impl View for TerminalPlan {
    type V = Plan;

    open spec fn view(&self) -> Plan {
        Plan {
            id: self.id,
            restore: self.restore,
            size: self.size,
            command: match self.program {
                Program::Shell => None,
                Program::Command(cmd) => Some(cmd@),
            },
            cwd: optional_text(self.cwd),
        }
    }
}

/// The size that a terminal starts with: as wide as the window, but at least 80 columns, and two
/// rows less high. It gets the size of its pane when it is first drawn.
pub open spec fn starting_size(window: Size) -> Size {
    Size {
        col_width: if window.col_width > 80 {
            window.col_width
        } else {
            80
        },
        row_height: (if window.row_height > 2 {
            window.row_height - 2
        } else {
            0
        }) as u16,
    }
}

/// A command that holds anything.
pub open spec fn filled(cmd: Option<Seq<char>>) -> Option<Seq<char>> {
    match cmd {
        Some(text) => if text.len() > 0 {
            Some(text)
        } else {
            None
        },
        None => None,
    }
}

/// How a terminal is to be started: a new one gets the next id.
pub open spec fn planned(
    app: App,
    cmd: Option<Seq<char>>,
    cwd: Option<Seq<char>>,
    id: Option<usize>,
    window: Size,
) -> (Plan, App) {
    (
        Plan {
            id: match id {
                Some(id) => id,
                None => app.next_terminal_id,
            },
            restore: id is Some,
            size: starting_size(window),
            command: filled(cmd),
            cwd,
        },
        match id {
            Some(_) => app,
            None => App { next_terminal_id: (app.next_terminal_id + 1) as usize, ..app },
        },
    )
}

/// A terminal whose program was just started.
pub open spec fn new_terminal(app: App, plan: Plan, screen: Display) -> Term {
    Term {
        screen,
        title: plan.command,
        last_size: plan.size,
        is_command_pane: plan.command is Some,
        exited: false,
        exit_code: None,
        exit_signal: None,
        scroll_offset: 0,
        cwd: match plan.cwd {
            Some(cwd) => cwd,
            None => app.root,
        },
        command: plan.command,
    }
}

/// The panes with a new terminal in front, of a size where one is given.
pub open spec fn with_new_window(panes: Panes, window: Window, size: Option<PaneSize>) -> Panes {
    let front = focused_in_front(panes, window);
    match size {
        Some(pane_size) => front.with_state(
            window,
            WindowState { pane_size, ..front.state_of(window) },
        ),
        None => front,
    }
}

/// The program of a terminal was started. A new terminal stands in front and has the keyboard.
pub open spec fn terminal_started(
    app: App,
    plan: Plan,
    screen: Display,
    size: Option<PaneSize>,
    now: Nanos,
) -> (App, Seq<Act>) {
    let window = Window::Terminal(plan.id);
    let there = app.with_terminal(plan.id, new_terminal(app, plan, screen));
    if plan.restore {
        (there, Seq::empty())
    } else {
        let next = App {
            panes: with_new_window(app.panes, window, size),
            terminal_grabbed: true,
            ..there
        }.dirty(now);
        (next, there.focus_acts(app.panes.focused, Some(window)))
    }
}

impl AppState {
    /// Decides how a terminal is to be started: with a shell, or with a command where it holds
    /// anything. A terminal from an earlier session keeps its id.
    pub fn plan_terminal(
        &mut self,
        cmd: Option<String>,
        cwd: Option<String>,
        id: Option<usize>,
        window_size: Size,
    ) -> (r: TerminalPlan)
        requires
            old(self).wf(),
            old(self)@.next_terminal_id < usize::MAX,
        ensures
            (r@, final(self)@) == planned(
                old(self)@,
                optional_text(cmd),
                optional_text(cwd),
                id,
                window_size,
            ),
            final(self).files == old(self).files,
            final(self).wf(),
    {
        let restore = id.is_some();
        let number: usize = match id {
            Some(id) => id,
            None => {
                let next: usize = self.next_terminal_id;
                self.next_terminal_id = next + 1;
                next
            },
        };
        proof {
            lemma_still_wf(old(self)@, self@);
        }
        let program = match cmd {
            Some(text) => {
                if text.as_str().is_empty() {
                    Program::Shell
                } else {
                    Program::Command(text)
                }
            },
            None => Program::Shell,
        };
        TerminalPlan {
            id: number,
            restore,
            size: Size {
                col_width: if window_size.col_width > 80 {
                    window_size.col_width
                } else {
                    80
                },
                row_height: window_size.row_height.saturating_sub(2),
            },
            program,
            cwd,
        }
    }

    /// Takes note of a terminal whose program was started, with an empty screen.
    pub fn start_terminal(
        &mut self,
        plan: &TerminalPlan,
        screen: Screen,
        pane_size: Option<PaneSize>,
        now: Nanos,
        effects: &mut Vec<Effect>,
    )
        requires
            old(self).wf(),
            screen@.wf(),
        ensures
            final(self)@ == terminal_started(old(self)@, plan@, screen@, pane_size, now).0,
            acts(final(effects)@) == acts(old(effects)@) + terminal_started(
                old(self)@,
                plan@,
                screen@,
                pane_size,
                now,
            ).1,
            final(self).files == old(self).files,
            final(self).wf(),
    {
        let ghost app = self@;
        let ghost before = acts(effects@);
        let pane = pane_of(plan, screen, self.root.as_str());
        assert(pane@ =~= new_terminal(app, plan@, screen@));
        self.put_terminal(plan.id, pane);
        let ghost there = self@;
        assert(there == app.with_terminal(plan.id, pane@));
        assert(there.wf());
        if !plan.restore {
            let window = Window::Terminal(plan.id);
            let was = self.pane_manager.focused_window;
            self.notify_terminal_focus_change(was, Some(window), effects);
            self.bring_terminal_to_front(plan.id, pane_size, now);
        }
        proof {
            assert(acts(effects@) =~= before + terminal_started(
                app,
                plan@,
                screen@,
                pane_size,
                now,
            ).1);
        }
    }

    /// Puts a new terminal in front, of a size where one is given, and gives it the keyboard.
    fn bring_terminal_to_front(&mut self, id: usize, pane_size: Option<PaneSize>, now: Nanos)
        requires
            old(self).wf(),
        ensures
            final(self)@ == (App {
                panes: with_new_window(old(self)@.panes, Window::Terminal(id), pane_size),
                terminal_grabbed: true,
                ..old(self)@
            }).dirty(now),
            final(self).files == old(self).files,
            final(self).wf(),
    {
        let ghost app = self@;
        let window = Window::Terminal(id);
        self.focus_new_window(window);
        let ghost front = self@;
        if let Some(size) = pane_size {
            self.pane_manager.set_window_pane_size(&window, size);
        }
        proof {
            assert(self@.panes.stack == front.panes.stack);
            lemma_still_wf(front, self@);
        }
        self.terminal_grabbed = true;
        self.mark_session_dirty(now);
    }
}

/// The pane of a terminal whose program was started.
fn pane_of(plan: &TerminalPlan, screen: Screen, root: &str) -> (r: TerminalPane)
    ensures
        r@ == (Term {
            screen: screen@,
            title: plan@.command,
            last_size: plan@.size,
            is_command_pane: plan@.command is Some,
            exited: false,
            exit_code: None,
            exit_signal: None,
            scroll_offset: 0,
            cwd: match plan@.cwd {
                Some(cwd) => cwd,
                None => root@,
            },
            command: plan@.command,
        }),
{
    let command: Option<String> = match &plan.program {
        Program::Shell => None,
        Program::Command(text) => Some(copy_of(text.as_str())),
    };
    let title: Option<String> = match &plan.program {
        Program::Shell => None,
        Program::Command(text) => Some(copy_of(text.as_str())),
    };
    let cwd: String = match &plan.cwd {
        Some(cwd) => copy_of(cwd.as_str()),
        None => copy_of(root),
    };
    TerminalPane {
        screen,
        title,
        last_size: plan.size,
        is_command_pane: command.is_some(),
        exited: false,
        exit_code: None,
        exit_signal: None,
        scroll_offset: 0,
        cwd,
        command,
    }
}

/// Whether a cell holds a character.
pub open spec fn holds_text(cell: PixelChar) -> bool {
    cell is PlainText
}

/// Whether no cell of a screen holds a character.
pub open spec fn is_empty_screen(d: Display) -> bool {
    forall|i: int, j: int|
        #![trigger d.buffer[i][j]]
        0 <= i < d.buffer.len() && 0 <= j < d.buffer[i].len() ==> !holds_text(d.buffer[i][j])
}

/// Whether no cell of a screen holds a character.
pub fn is_buffer_empty(screen: &Screen) -> (r: bool)
    ensures
        r == is_empty_screen(screen@),
{
    let mut i: usize = 0;
    while i < screen.buffer.len()
        invariant
            i <= screen.buffer@.len(),
            forall|a: int, b: int|
                #![trigger screen@.buffer[a][b]]
                0 <= a < i && 0 <= b < screen@.buffer[a].len() ==> !holds_text(screen@.buffer[a][b]),
        decreases screen.buffer@.len() - i,
    {
        let line = &screen.buffer[i];
        assert(screen@.buffer[i as int] == line@);
        let mut j: usize = 0;
        while j < line.len()
            invariant
                i < screen.buffer@.len(),
                screen@.buffer[i as int] == line@,
                j <= line@.len(),
                forall|b: int| 0 <= b < j ==> !holds_text(#[trigger] line@[b]),
            decreases line@.len() - j,
        {
            if let PixelChar::PlainText { .. } = line[j] {
                assert(holds_text(screen@.buffer[i as int][j as int]));
                return false;
            }
            j += 1;
        }
        i += 1;
    }
    true
}

/// A terminal is gone, with its window and its program. Before that, its program is told that it
/// has lost the focus, where it asked for focus events, and after that the program in the terminal
/// that has the focus then.
pub open spec fn terminal_removed(app: App, id: usize, now: Nanos) -> (App, Seq<Act>) {
    let window = Window::Terminal(id);
    let next = App {
        terminals: app.terminals.remove(id),
        panes: app.panes.removed(window),
        ..app
    };
    (
        next.dirty(now).grab_synced(),
        app.focus_act(Some(window), seq![0x1bu8, 0x5b, 0x4f]) + (if app.terminals.contains_key(id) {
            seq![Act::KillTerminal(id)]
        } else {
            Seq::empty()
        }) + next.focus_acts(app.panes.focused, next.panes.focused),
    )
}

/// The program of a terminal has ended: a terminal that shows nothing is gone, and any other stays
/// until it is dismissed.
pub open spec fn program_ended(
    app: App,
    id: usize,
    exit_code: Option<u32>,
    exit_signal: Option<Seq<char>>,
    now: Nanos,
) -> (App, Seq<Act>) {
    if !app.terminals.contains_key(id) {
        (app, Seq::empty())
    } else if is_empty_screen(app.terminals[id].screen) {
        terminal_removed(app, id, now)
    } else {
        (
            app.with_terminal(
                id,
                Term { exited: true, exit_code, exit_signal, ..app.terminals[id] },
            ),
            Seq::empty(),
        )
    }
}

impl AppState {
    /// Removes a terminal, with its window and its program.
    pub fn remove_terminal(&mut self, id: usize, now: Nanos, effects: &mut Vec<Effect>)
        requires
            old(self).wf(),
        ensures
            final(self)@ == terminal_removed(old(self)@, id, now).0,
            acts(final(effects)@) == acts(old(effects)@) + terminal_removed(
                old(self)@,
                id,
                now,
            ).1,
            final(self).files == old(self).files,
            final(self).wf(),
    {
        let ghost app = self@;
        let ghost before = acts(effects@);
        let window = Window::Terminal(id);
        let was = self.pane_manager.focused_window;
        let told = match self.terminal_panes.get(&id) {
            Some(pane) => pane.screen.focus_events,
            None => false,
        };
        let lost: Vec<u8> = vec![0x1bu8, 0x5b, 0x4f];
        assert(lost@ =~= seq![0x1bu8, 0x5b, 0x4f]);
        if told {
            perform(effects, Effect::Pty { id, event: PtyInputEvent::Write(lost) });
        }
        assert(acts(effects@) =~= before + app.focus_act(
            Some(window),
            seq![0x1bu8, 0x5b, 0x4f],
        ));
        let ghost mid = acts(effects@);
        let ghost terms = self.terminal_panes@;
        let gone = self.terminal_panes.remove(&id);
        if gone.is_some() {
            perform(effects, Effect::KillTerminal(id));
        }
        let kill = Ghost(
            if app.terminals.contains_key(id) {
                seq![Act::KillTerminal(id)]
            } else {
                Seq::empty()
            },
        );
        assert(acts(effects@) =~= mid + kill@);
        proof {
            lemma_panes_stay_wf(app, window);
            assert(terms_of(self.terminal_panes@) =~= app.terminals.remove(id));
        }
        self.pane_manager.remove_window(&window);
        let ghost next = App {
            terminals: app.terminals.remove(id),
            panes: app.panes.removed(window),
            ..app
        };
        assert(self@ =~= next);
        let is = self.pane_manager.focused_window;
        self.notify_terminal_focus_change(was, is, effects);
        self.mark_session_dirty(now);
        self.sync_terminal_grabbed();
        assert(acts(effects@) =~= before + terminal_removed(app, id, now).1);
        assert(next.wf());
        proof {
            lemma_still_wf(next, self@);
        }
    }

    /// Takes note that the program of a terminal has ended.
    pub fn end_program(
        &mut self,
        id: usize,
        exit_code: Option<u32>,
        exit_signal: Option<String>,
        now: Nanos,
        effects: &mut Vec<Effect>,
    )
        requires
            old(self).wf(),
        ensures
            final(self)@ == program_ended(
                old(self)@,
                id,
                exit_code,
                optional_text(exit_signal),
                now,
            ).0,
            acts(final(effects)@) == acts(old(effects)@) + program_ended(
                old(self)@,
                id,
                exit_code,
                optional_text(exit_signal),
                now,
            ).1,
            final(self).files == old(self).files,
            final(self).wf(),
    {
        let ghost app = self@;
        assert(acts(effects@) =~= acts(old(effects)@) + Seq::<Act>::empty());
        let empty = match self.terminal_panes.get(&id) {
            Some(pane) => {
                assert(app.terminals[id] == pane@);
                is_buffer_empty(&pane.screen)
            },
            None => {
                return;
            },
        };
        if empty {
            self.remove_terminal(id, now, effects);
        } else {
            match self.terminal_panes.remove(&id) {
                Some(pane) => {
                    let mut pane = pane;
                    pane.exited = true;
                    pane.exit_code = exit_code;
                    pane.exit_signal = exit_signal;
                    self.put_terminal(id, pane);
                },
                None => {},
            }
            proof {
                let t = app.terminals[id];
                let after = app.with_terminal(
                    id,
                    Term {
                        exited: true,
                        exit_code,
                        exit_signal: optional_text(exit_signal),
                        ..t
                    },
                );
                assert(self@.terminals =~= after.terminals);
            }
        }
    }
}

/// How many lines a terminal holds, in its history and on its screen.
pub open spec fn line_count(d: Display) -> int {
    (d.scrollback.len() + d.buffer.len()) as int
}

/// How far back a terminal is scrolled when its program has written something: further by as many
/// lines as it got, so that the same lines stay in sight, but not where it shows the bottom.
pub open spec fn offset_after_output(offset: int, before: Display, after: Display) -> int {
    if offset > 0 && line_count(after) > line_count(before) {
        lesser(offset + (line_count(after) - line_count(before)), usize::MAX as int)
    } else {
        offset
    }
}

/// The last of some titles, or the one before.
pub open spec fn title_after(title: Option<Seq<char>>, titles: Seq<Seq<char>>) -> Option<Seq<char>> {
    if titles.len() > 0 {
        Some(titles.last())
    } else {
        title
    }
}

/// What is sent to the program of a terminal, piece by piece.
pub open spec fn replies(id: usize, pieces: Seq<Vec<u8>>, n: int) -> Seq<Act>
    decreases n,
{
    if n <= 0 {
        Seq::empty()
    } else {
        replies(id, pieces, n - 1).push(Act::Pty { id, event: PtyInput::Write(pieces[n - 1]@) })
    }
}

/// A terminal whose program has written something.
pub open spec fn term_after_output(t: Term, screen: Display, titles: Seq<Seq<char>>) -> Term {
    Term {
        screen,
        title: title_after(t.title, titles),
        scroll_offset: offset_after_output(t.scroll_offset as int, t.screen, screen) as usize,
        ..t
    }
}

/// The program of a terminal has written something.
pub open spec fn output_shown(
    app: App,
    id: usize,
    screen: Display,
    titles: Seq<Seq<char>>,
) -> App {
    if app.terminals.contains_key(id) {
        app.with_terminal(id, term_after_output(app.terminals[id], screen, titles))
    } else {
        app
    }
}

/// A terminal pane whose program has written something.
fn pane_after_output(pane: TerminalPane, screen: Screen, titles: Vec<String>) -> (r: TerminalPane)
    requires
        pane@.screen.wf(),
        screen@.wf(),
    ensures
        r@ == term_after_output(pane@, screen@, crate::text::texts(titles@)),
{
    let mut next = pane;
    let was: usize = next.screen.scrollback.len() + next.screen.buffer.len();
    assert(was == line_count(pane@.screen));
    let is: usize = screen.scrollback.len() + screen.buffer.len();
    assert(is == line_count(screen@));
    if next.scroll_offset > 0 {
        next.scroll_offset = next.scroll_offset.saturating_add(is.saturating_sub(was));
    }
    next.screen = screen;
    let ghost names = crate::text::texts(titles@);
    if titles.len() > 0 {
        let last: usize = titles.len() - 1;
        next.title = Some(copy_of(titles[last].as_str()));
        assert(names.last() == titles@[last as int]@);
    }
    assert(next@ =~= term_after_output(pane@, screen@, names));
    next
}

/// Sends answers to the program of a terminal.
fn send_answers(id: usize, answers: &Vec<Vec<u8>>, effects: &mut Vec<Effect>)
    ensures
        acts(final(effects)@) == acts(old(effects)@) + replies(
            id,
            answers@,
            answers@.len() as int,
        ),
{
    let ghost before = acts(effects@);
    let mut i: usize = 0;
    assert(before + replies(id, answers@, 0) =~= before);
    while i < answers.len()
        invariant
            i <= answers@.len(),
            acts(effects@) == before + replies(id, answers@, i as int),
        decreases answers@.len() - i,
    {
        let bytes = copy_bytes(&answers[i]);
        perform(effects, Effect::Pty { id, event: PtyInputEvent::Write(bytes) });
        i += 1;
        assert(acts(effects@) =~= before + replies(id, answers@, i as int));
    }
}

impl AppState {
    /// Takes over what the program of a terminal has written: the screen as it is then, the titles
    /// that it set, and the answers that it is owed.
    pub fn show_output(
        &mut self,
        id: usize,
        screen: Screen,
        titles: Vec<String>,
        answers: &Vec<Vec<u8>>,
        effects: &mut Vec<Effect>,
    )
        requires
            old(self).wf(),
            screen@.wf(),
        ensures
            final(self)@ == output_shown(
                old(self)@,
                id,
                screen@,
                crate::text::texts(titles@),
            ),
            acts(final(effects)@) == acts(old(effects)@) + if old(self)@.terminals.contains_key(
                id,
            ) {
                replies(id, answers@, answers@.len() as int)
            } else {
                Seq::empty()
            },
            final(self).files == old(self).files,
            final(self).wf(),
    {
        let ghost app = self@;
        let ghost before = acts(effects@);
        assert(before + Seq::<Act>::empty() =~= before);
        match self.terminal_panes.remove(&id) {
            Some(pane) => {
                assert(app.terminals[id] == pane@);
                assert(app.terminals[id].screen.wf());
                let next = pane_after_output(pane, screen, titles);
                self.put_terminal(id, next);
                assert(self@.terminals =~= app.with_terminal(id, next@).terminals);
                send_answers(id, answers, effects);
            },
            None => {
                assert(self@.terminals =~= app.terminals);
            },
        }
    }
}

/// The same bytes.
fn copy_bytes(bytes: &Vec<u8>) -> (r: Vec<u8>)
    ensures
        r@ == bytes@,
{
    let mut out: Vec<u8> = Vec::new();
    let mut i: usize = 0;
    while i < bytes.len()
        invariant
            i <= bytes@.len(),
            out@ == bytes@.take(i as int),
        decreases bytes@.len() - i,
    {
        out.push(bytes[i]);
        i += 1;
        assert(out@ =~= bytes@.take(i as int));
    }
    assert(bytes@.take(i as int) =~= bytes@);
    out
}

/// A terminal that is scrolled back keeps showing the same lines while its program writes.
pub proof fn law_output_keeps_lines_in_sight(
    offset: int,
    before: Display,
    after: Display,
    height: int,
)
    requires
        0 < offset,
        offset <= before.scrollback.len(),
        before.all_lines().is_prefix_of(after.all_lines()),
        before.wf(),
        after.wf(),
        offset_after_output(offset, before, after) <= after.scrollback.len(),
    ensures
        after.viewport_top(offset_after_output(offset, before, after), height)
            == before.viewport_top(offset, height),
{
    assert(line_count(before) == before.all_lines().len());
    assert(line_count(after) == after.all_lines().len());
}

/// Decides when the screen is drawn anew for what programs write: once there is no room for
/// another request, none is made as long as output comes with less than 100 milliseconds between.
#[derive(Clone, Copy, Debug, PartialEq, Eq, Structural)]
pub struct OutputThrottle {
    pub last_event: Nanos,
    pub backoff: Option<Nanos>,
}

impl OutputThrottle {
    /// Whether output at `now` comes too soon for another request.
    pub open spec fn holds_back(self, now: Nanos) -> bool {
        self.backoff is Some && time_between(self.last_event, now) / (MILLISECOND as int) < 100
    }

    /// A throttle that holds nothing back.
    pub fn starting_at(now: Nanos) -> (r: Self)
        ensures
            r == (OutputThrottle { last_event: now, backoff: None }),
    {
        OutputThrottle { last_event: now, backoff: None }
    }

    /// Takes note of output, and returns whether to make a request. What comes of it goes to
    /// [`OutputThrottle::note_request`].
    pub fn note_output(&mut self, now: Nanos) -> (r: bool)
        ensures
            r == !old(self).holds_back(now),
            *final(self) == (OutputThrottle {
                last_event: now,
                backoff: if r {
                    old(self).backoff
                } else {
                    Some(now)
                },
            }),
    {
        let soon = elapsed(self.last_event, now) / MILLISECOND < 100;
        let held = soon && self.backoff.is_some();
        if held {
            self.backoff = Some(now);
        }
        self.last_event = now;
        !held
    }

    /// Takes note of whether there was room for a request.
    pub fn note_request(&mut self, had_room: bool, now: Nanos)
        ensures
            *final(self) == (OutputThrottle {
                backoff: if had_room {
                    None
                } else {
                    Some(now)
                },
                ..*old(self)
            }),
    {
        self.backoff = if had_room {
            None
        } else {
            Some(now)
        };
    }
}

/// A pause of 100 milliseconds always leads to another request.
pub proof fn law_pause_leads_to_request(throttle: OutputThrottle, now: Nanos)
    requires
        time_between(throttle.last_event, now) >= 100 * MILLISECOND,
    ensures
        !throttle.holds_back(now),
{
    let t = time_between(throttle.last_event, now);
    assert(t / (MILLISECOND as int) >= 100);
}

/// Whether the session is to be saved: it has changed, and two seconds have passed since.
pub open spec fn save_is_due(app: App, now: Nanos) -> bool {
    app.session_dirty_at matches Some(at) && time_between(at, now) >= 2
        * crate::session_time::SECOND
}

impl AppState {
    /// Whether the session is to be saved.
    pub fn session_save_due(&self, now: Nanos) -> (r: bool)
        ensures
            r == save_is_due(self@, now),
    {
        match self.session_dirty_at {
            Some(at) => elapsed(at, now) >= 2 * crate::session_time::SECOND,
            None => false,
        }
    }

    /// Takes note that the session was saved.
    pub fn note_session_saved(&mut self)
        ensures
            final(self)@ == (App { session_dirty_at: None, ..old(self)@ }),
            final(self).files == old(self).files,
    {
        self.session_dirty_at = None;
    }
}

} // verus!
