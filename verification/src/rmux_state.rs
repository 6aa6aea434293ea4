//! The state of a pane of the terminal multiplexer.

use vstd::prelude::*;
use crate::text::copy_of;

verus! {

/// Why a pane's session was ended.
#[derive(Debug)]
pub enum PaneExitReason {
    Bare,
    WithReason { reason: String },
}

/// Why a pane was disconnected.
#[derive(Debug)]
pub enum PaneDisconnectReason {
    TooFarBehind,
    ServerShutdown,
    NotificationOverflow,
    TransportClosed,
    Other { reason: String },
}

/// What a [`PaneExitReason`] stands for.
#[verifier::ext_equal]
pub enum ExitCause {
    Bare,
    WithReason(Seq<char>),
}

/// What a [`PaneDisconnectReason`] stands for.
#[verifier::ext_equal]
pub enum DisconnectCause {
    TooFarBehind,
    ServerShutdown,
    NotificationOverflow,
    TransportClosed,
    Other(Seq<char>),
}

impl View for PaneExitReason {
    type V = ExitCause;

    open spec fn view(&self) -> ExitCause {
        match *self {
            PaneExitReason::Bare => ExitCause::Bare,
            PaneExitReason::WithReason { reason } => ExitCause::WithReason(reason@),
        }
    }
}

impl View for PaneDisconnectReason {
    type V = DisconnectCause;

    open spec fn view(&self) -> DisconnectCause {
        match *self {
            PaneDisconnectReason::TooFarBehind => DisconnectCause::TooFarBehind,
            PaneDisconnectReason::ServerShutdown => DisconnectCause::ServerShutdown,
            PaneDisconnectReason::NotificationOverflow => DisconnectCause::NotificationOverflow,
            PaneDisconnectReason::TransportClosed => DisconnectCause::TransportClosed,
            PaneDisconnectReason::Other { reason } => DisconnectCause::Other(reason@),
        }
    }
}

impl PaneExitReason {
    /// A reason of its own that says the same.
    pub fn copy(&self) -> (r: Self)
        ensures
            r@ == self@,
    {
        match self {
            PaneExitReason::Bare => PaneExitReason::Bare,
            PaneExitReason::WithReason { reason } => PaneExitReason::WithReason {
                reason: copy_of(reason.as_str()),
            },
        }
    }
}

impl PaneDisconnectReason {
    /// A reason of its own that says the same.
    pub fn copy(&self) -> (r: Self)
        ensures
            r@ == self@,
    {
        match self {
            PaneDisconnectReason::TooFarBehind => PaneDisconnectReason::TooFarBehind,
            PaneDisconnectReason::ServerShutdown => PaneDisconnectReason::ServerShutdown,
            PaneDisconnectReason::NotificationOverflow => {
                PaneDisconnectReason::NotificationOverflow
            },
            PaneDisconnectReason::TransportClosed => PaneDisconnectReason::TransportClosed,
            PaneDisconnectReason::Other { reason } => PaneDisconnectReason::Other {
                reason: copy_of(reason.as_str()),
            },
        }
    }
}

/// What happened to a pane. Output and messages are `Other`.
#[derive(Debug)]
pub enum PaneEvent {
    Close,
    Exit(PaneExitReason),
    Disconnect(PaneDisconnectReason),
    Pause,
    Continue,
    Lag,
    Other,
}

/// Output that was missed, by the numbers of its pieces.
#[derive(Clone, Copy, Debug, PartialEq, Eq, Structural)]
pub struct PaneLagNotice {
    pub expected_sequence: u64,
    pub resume_sequence: u64,
    pub missed_events: u64,
    pub newest_sequence: u64,
}

/// A piece of a pane's output: bytes, or a notice that some were missed.
#[derive(Debug)]
pub enum PaneOutputChunk {
    Bytes(Vec<u8>),
    Lag(PaneLagNotice),
}

/// Whether a pane lives.
#[derive(Debug)]
pub enum PaneLifecycle {
    Live,
    Closed,
    Exited(PaneExitReason),
    Disconnected(PaneDisconnectReason),
}

/// What a [`PaneLifecycle`] stands for.
#[verifier::ext_equal]
pub enum Life {
    Live,
    Closed,
    Exited(ExitCause),
    Disconnected(DisconnectCause),
}

impl View for PaneLifecycle {
    type V = Life;

    open spec fn view(&self) -> Life {
        match *self {
            PaneLifecycle::Live => Life::Live,
            PaneLifecycle::Closed => Life::Closed,
            PaneLifecycle::Exited(reason) => Life::Exited(reason@),
            PaneLifecycle::Disconnected(reason) => Life::Disconnected(reason@),
        }
    }
}

impl PaneLifecycle {
    /// Whether the pane lives.
    pub fn is_live(&self) -> (r: bool)
        ensures
            r == (self@ == Life::Live),
    {
        matches!(self, PaneLifecycle::Live)
    }

    /// A value of its own that says the same.
    pub fn copy(&self) -> (r: Self)
        ensures
            r@ == self@,
    {
        match self {
            PaneLifecycle::Live => PaneLifecycle::Live,
            PaneLifecycle::Closed => PaneLifecycle::Closed,
            PaneLifecycle::Exited(reason) => PaneLifecycle::Exited(reason.copy()),
            PaneLifecycle::Disconnected(reason) => PaneLifecycle::Disconnected(reason.copy()),
        }
    }
}

impl Default for PaneLifecycle {
    fn default() -> (r: Self)
        ensures
            r@ == Life::Live,
    {
        PaneLifecycle::Live
    }
}

/// How large a pane is, and how often what it shows has changed.
#[derive(Clone, Copy, Debug, PartialEq, Eq, Structural)]
pub struct PaneShape {
    pub cols: u16,
    pub rows: u16,
    pub revision: u64,
}

/// The state of a pane.
#[derive(Debug)]
pub struct R3blPaneState {
    pub pane_id: Option<u64>,
    pub snapshot: PaneShape,
    pub lifecycle: PaneLifecycle,
    pub paused: bool,
    pub lagging: bool,
    pub last_lag_notice: Option<PaneLagNotice>,
    pub generation: u64,
}

/// What an [`R3blPaneState`] stands for.
#[verifier::ext_equal]
pub struct PaneModel {
    pub pane_id: Option<u64>,
    pub snapshot: PaneShape,
    pub lifecycle: Life,
    pub paused: bool,
    pub lagging: bool,
    pub last_lag_notice: Option<PaneLagNotice>,
    pub generation: u64,
}

impl View for R3blPaneState {
    type V = PaneModel;

    open spec fn view(&self) -> PaneModel {
        PaneModel {
            pane_id: self.pane_id,
            snapshot: self.snapshot,
            lifecycle: self.lifecycle@,
            paused: self.paused,
            lagging: self.lagging,
            last_lag_notice: self.last_lag_notice,
            generation: self.generation,
        }
    }
}

impl PaneModel {
    /// A pane of which nothing but a snapshot is known.
    pub open spec fn fresh(snapshot: PaneShape) -> PaneModel {
        PaneModel {
            pane_id: None,
            snapshot,
            lifecycle: Life::Live,
            paused: false,
            lagging: false,
            last_lag_notice: None,
            generation: 0,
        }
    }

    /// The pane shows something else. Snapshots of another revision count as a new generation.
    pub open spec fn shown(self, snapshot: PaneShape) -> PaneModel {
        PaneModel {
            generation: if snapshot.revision != self.snapshot.revision {
                if self.generation == u64::MAX {
                    0
                } else {
                    (self.generation + 1) as u64
                }
            } else {
                self.generation
            },
            snapshot,
            ..self
        }
    }

    /// Something happened to the pane.
    pub open spec fn after(self, event: PaneEvent) -> PaneModel {
        match event {
            PaneEvent::Close => PaneModel { lifecycle: Life::Closed, ..self },
            PaneEvent::Exit(reason) => PaneModel { lifecycle: Life::Exited(reason@), ..self },
            PaneEvent::Disconnect(reason) => PaneModel {
                lifecycle: Life::Disconnected(reason@),
                ..self
            },
            PaneEvent::Pause => PaneModel { paused: true, ..self },
            PaneEvent::Continue => PaneModel { paused: false, ..self },
            PaneEvent::Lag => PaneModel { lagging: true, ..self },
            PaneEvent::Other => self,
        }
    }
}

impl R3blPaneState {
    /// A pane of which nothing but a snapshot is known.
    pub fn from_snapshot(snapshot: PaneShape) -> (r: Self)
        ensures
            r@ == PaneModel::fresh(snapshot),
    {
        R3blPaneState {
            pane_id: None,
            snapshot,
            lifecycle: PaneLifecycle::Live,
            paused: false,
            lagging: false,
            last_lag_notice: None,
            generation: 0,
        }
    }

    /// The state as it is now, on its own.
    pub fn copy(&self) -> (r: Self)
        ensures
            r@ == self@,
    {
        R3blPaneState {
            pane_id: self.pane_id,
            snapshot: self.snapshot,
            lifecycle: self.lifecycle.copy(),
            paused: self.paused,
            lagging: self.lagging,
            last_lag_notice: self.last_lag_notice,
            generation: self.generation,
        }
    }

    /// How many columns the pane has.
    pub fn cols(&self) -> (r: u16)
        ensures
            r == self@.snapshot.cols,
    {
        self.snapshot.cols
    }

    /// How many rows the pane has.
    pub fn rows(&self) -> (r: u16)
        ensures
            r == self@.snapshot.rows,
    {
        self.snapshot.rows
    }

    /// The revision of the snapshot.
    pub fn revision(&self) -> (r: u64)
        ensures
            r == self@.snapshot.revision,
    {
        self.snapshot.revision
    }

    /// Takes a snapshot.
    pub fn set_snapshot(&mut self, snapshot: PaneShape)
        ensures
            final(self)@ == old(self)@.shown(snapshot),
    {
        if snapshot.revision != self.snapshot.revision {
            self.generation = if self.generation == u64::MAX {
                0
            } else {
                self.generation + 1
            };
        }
        self.snapshot = snapshot;
    }

    /// Takes note of the pane's id.
    pub fn set_pane_id(&mut self, pane_id: u64)
        ensures
            final(self)@ == (PaneModel { pane_id: Some(pane_id), ..old(self)@ }),
    {
        self.pane_id = Some(pane_id);
    }

    /// Output is no longer missed.
    pub fn clear_lag(&mut self)
        ensures
            final(self)@ == (PaneModel { lagging: false, last_lag_notice: None, ..old(self)@ }),
    {
        self.lagging = false;
        self.last_lag_notice = None;
    }

    /// Takes note of output that was missed.
    pub fn record_lag_notice(&mut self, notice: PaneLagNotice)
        ensures
            final(self)@ == (PaneModel {
                lagging: true,
                last_lag_notice: Some(notice),
                ..old(self)@
            }),
    {
        self.lagging = true;
        self.last_lag_notice = Some(notice);
    }

    /// Takes note of what happened to the pane.
    pub fn apply_event(&mut self, event: &PaneEvent)
        ensures
            final(self)@ == old(self)@.after(*event),
    {
        match event {
            PaneEvent::Close => {
                self.lifecycle = PaneLifecycle::Closed;
            },
            PaneEvent::Exit(reason) => {
                self.lifecycle = PaneLifecycle::Exited(reason.copy());
            },
            PaneEvent::Disconnect(reason) => {
                self.lifecycle = PaneLifecycle::Disconnected(reason.copy());
            },
            PaneEvent::Pause => {
                self.paused = true;
            },
            PaneEvent::Continue => {
                self.paused = false;
            },
            PaneEvent::Lag => {
                self.lagging = true;
            },
            PaneEvent::Other => {},
        }
    }

    /// Takes note of a piece of output: bytes change nothing, and a notice is kept.
    pub fn apply_output_chunk(&mut self, chunk: &PaneOutputChunk)
        ensures
            final(self)@ == match *chunk {
                PaneOutputChunk::Lag(notice) => (PaneModel {
                    lagging: true,
                    last_lag_notice: Some(notice),
                    ..old(self)@
                }),
                PaneOutputChunk::Bytes(_) => old(self)@,
            },
    {
        if let PaneOutputChunk::Lag(notice) = chunk {
            self.record_lag_notice(*notice);
        }
    }
}

/// A snapshot of the same revision is no new generation, and one of another is.
pub proof fn law_generation_follows_revision(p: PaneModel, snapshot: PaneShape)
    ensures
        p.shown(snapshot).generation == p.generation <==> snapshot.revision
            == p.snapshot.revision,
{
}

} // verus!
