//! What the program has to do outside, as values that the event handlers return.

use vstd::prelude::*;
use crate::geometry::Size;

verus! {

/// Whether a worker goes on, starts anew or ends.
#[derive(Clone, Copy, Debug, PartialEq, Eq, Structural)]
pub enum Continuation {
    Continue,
    Restart,
    Stop,
}

/// A control sequence for a program in a terminal.
#[derive(Clone, Copy, Debug, PartialEq, Eq, Structural)]
pub enum ControlSequence {
    ArrowUp,
    ArrowDown,
    ArrowLeft,
    ArrowRight,
    Home,
    End,
    /// Any other sequence, by its number.
    Other(u32),
}

/// What is sent to a program in a terminal.
pub enum PtyInputEvent {
    Write(Vec<u8>),
    /// A control sequence, with the cursor keys in application mode or not.
    SendControl(ControlSequence, bool),
    Resize(Size),
    Close,
}

/// What a [`PtyInputEvent`] stands for.
#[verifier::ext_equal]
pub enum PtyInput {
    Write(Seq<u8>),
    SendControl(ControlSequence, bool),
    Resize(Size),
    Close,
}

impl View for PtyInputEvent {
    type V = PtyInput;

    open spec fn view(&self) -> PtyInput {
        match *self {
            PtyInputEvent::Write(bytes) => PtyInput::Write(bytes@),
            PtyInputEvent::SendControl(control, mode) => PtyInput::SendControl(control, mode),
            PtyInputEvent::Resize(size) => PtyInput::Resize(size),
            PtyInputEvent::Close => PtyInput::Close,
        }
    }
}

/// Something to do outside.
pub enum Effect {
    /// Send something to the program in a terminal.
    Pty { id: usize, event: PtyInputEvent },
    /// End the program in a terminal.
    KillTerminal(usize),
    /// Put a text on the clipboard.
    Clipboard(String),
    /// Open a terminal: a shell, or a command, in a directory where one is given.
    OpenTerminal { cmd: Option<String>, cwd: Option<String> },
    /// Ask the language server for the tokens of a file.
    RequestTokens(usize),
    /// Match the query of the file picker against the files.
    MatchFiles,
    /// Write a theme's name to the configuration.
    SaveTheme(String),
    /// Save the session.
    SaveSession,
    /// Send the requests to the language server that were kept while it was not running.
    SendKeptRequests,
    /// Write bytes to the terminal that the program itself runs in.
    WriteOut(Vec<u8>),
}

/// What an [`Effect`] stands for.
#[verifier::ext_equal]
pub enum Act {
    Pty { id: usize, event: PtyInput },
    KillTerminal(usize),
    Clipboard(Seq<char>),
    OpenTerminal { cmd: Option<Seq<char>>, cwd: Option<Seq<char>> },
    RequestTokens(usize),
    MatchFiles,
    SaveTheme(Seq<char>),
    SaveSession,
    SendKeptRequests,
    WriteOut(Seq<u8>),
}

impl View for Effect {
    type V = Act;

    open spec fn view(&self) -> Act {
        match *self {
            Effect::Pty { id, event } => Act::Pty { id, event: event@ },
            Effect::KillTerminal(id) => Act::KillTerminal(id),
            Effect::Clipboard(text) => Act::Clipboard(text@),
            Effect::OpenTerminal { cmd, cwd } => Act::OpenTerminal {
                cmd: match cmd {
                    Some(c) => Some(c@),
                    None => None,
                },
                cwd: match cwd {
                    Some(c) => Some(c@),
                    None => None,
                },
            },
            Effect::RequestTokens(i) => Act::RequestTokens(i),
            Effect::MatchFiles => Act::MatchFiles,
            Effect::SaveTheme(name) => Act::SaveTheme(name@),
            Effect::SaveSession => Act::SaveSession,
            Effect::SendKeptRequests => Act::SendKeptRequests,
            Effect::WriteOut(bytes) => Act::WriteOut(bytes@),
        }
    }
}

/// What some effects stand for.
pub open spec fn acts(effects: Seq<Effect>) -> Seq<Act> {
    Seq::new(effects.len(), |i: int| effects[i]@)
}

/// Appends one effect.
pub fn perform(effects: &mut Vec<Effect>, effect: Effect)
    ensures
        acts(final(effects)@) == acts(old(effects)@).push(effect@),
{
    let ghost before = effects@;
    effects.push(effect);
    assert(acts(effects@) =~= acts(before).push(effect@));
}

} // verus!
