//! Time spent in the program, in nanoseconds since a moment of the clock's own.

use vstd::prelude::*;

verus! {

/// A moment, or a length of time, in nanoseconds.
pub type Nanos = u128;

/// One second.
pub const SECOND: Nanos = 1_000_000_000;

/// One millisecond.
pub const MILLISECOND: Nanos = 1_000_000;

/// A gap longer than this between input events (or a loss of terminal focus) is treated
/// as inactivity and excluded from the "active" time counter.
pub const IDLE_THRESHOLD: Nanos = 60_000_000_000;

/// How long it is from `earlier` to `later`, or nothing where `later` comes first.
pub open spec fn time_between(earlier: Nanos, later: Nanos) -> int {
    if later >= earlier {
        later - earlier
    } else {
        0
    }
}

/// How long it is from `earlier` to `later`, or nothing where `later` comes first.
pub fn elapsed(earlier: Nanos, later: Nanos) -> (r: Nanos)
    ensures
        r == time_between(earlier, later),
{
    if later >= earlier {
        later - earlier
    } else {
        0
    }
}

/// Tracks time spent in the program, split into "active" (excluding inactivity) and "total"
/// (wall-clock) for both the current session and, cumulatively, the whole project.
///
/// Accrual is a monotonic "heartbeat with timeout": every settle point adds the elapsed
/// wall time to `active_accum` only while the terminal is focused and the last real input
/// was within [`IDLE_THRESHOLD`].
#[derive(Clone, Copy, Debug, PartialEq, Eq, Structural)]
pub struct SessionTime {
    /// When this session began.
    pub session_start: Nanos,
    /// Timestamp of the last real input event.
    pub last_activity: Nanos,
    /// Last point `active_accum` was settled up to.
    pub last_tick: Nanos,
    /// Active time accumulated so far this session.
    pub active_accum: Nanos,
    /// Whether the terminal window currently has focus.
    pub focused: bool,
    /// Active time carried over from previous sessions.
    pub prior_active: Nanos,
    /// Total time carried over from previous sessions.
    pub prior_total: Nanos,
}

impl SessionTime {
    /// Whether the time up to `now` counts as active.
    pub open spec fn is_active(self, now: Nanos) -> bool {
        self.focused && time_between(self.last_activity, now) <= IDLE_THRESHOLD
    }

    /// The active time that a settle point at `now` adds.
    pub open spec fn accrued(self, now: Nanos) -> int {
        if self.is_active(now) {
            time_between(self.last_tick, now)
        } else {
            0
        }
    }

    /// The counters, settled up to `now`.
    pub open spec fn settled(self, now: Nanos) -> SessionTime {
        SessionTime {
            active_accum: (self.active_accum + self.accrued(now)) as u128,
            last_tick: now,
            ..self
        }
    }

    /// The counters with an activity at `now`.
    pub open spec fn touched(self, now: Nanos) -> SessionTime {
        SessionTime { last_activity: now, ..self.settled(now) }
    }

    /// The counters with a change of the focus at `now`.
    pub open spec fn refocused(self, gained: bool, now: Nanos) -> SessionTime {
        SessionTime {
            focused: gained,
            ..if gained {
                self.touched(now)
            } else {
                self.settled(now)
            }
        }
    }

    /// Counters that start at `now`, focused, with nothing from earlier sessions.
    pub fn starting_at(now: Nanos) -> (r: Self)
        ensures
            r == (SessionTime {
                session_start: now,
                last_activity: now,
                last_tick: now,
                active_accum: 0,
                focused: true,
                prior_active: 0,
                prior_total: 0,
            }),
    {
        SessionTime {
            session_start: now,
            last_activity: now,
            last_tick: now,
            active_accum: 0,
            focused: true,
            prior_active: 0,
            prior_total: 0,
        }
    }

    /// Fold the wall time since the last settle into `active_accum`, but only while the
    /// user is focused and was recently active. Idle stretches (and unfocused time) are
    /// silently dropped, so active time never counts inactivity, and never decreases.
    pub fn settle(&mut self, now: Nanos)
        requires
            old(self).active_accum + old(self).accrued(now) <= u128::MAX,
        ensures
            *final(self) == old(self).settled(now),
    {
        let delta: Nanos = elapsed(self.last_tick, now);
        if self.focused && elapsed(self.last_activity, now) <= IDLE_THRESHOLD {
            self.active_accum = self.active_accum + delta;
        }
        self.last_tick = now;
    }

    /// Record a real input event (keyboard, mouse, resize, paste) at `now`.
    pub fn on_input(&mut self, now: Nanos)
        requires
            old(self).active_accum + old(self).accrued(now) <= u128::MAX,
        ensures
            *final(self) == old(self).touched(now),
    {
        self.settle(now);
        self.last_activity = now;
    }

    /// Record a terminal focus change at `now`. Losing focus immediately stops active accrual;
    /// regaining it restarts the idle clock (the away period is never counted).
    pub fn on_focus(&mut self, gained: bool, now: Nanos)
        requires
            old(self).active_accum + old(self).accrued(now) <= u128::MAX,
        ensures
            *final(self) == old(self).refocused(gained, now),
    {
        self.settle(now);
        self.focused = gained;
        if gained {
            self.last_activity = now;
        }
    }

    /// Advance the counters to `now` without registering activity.
    pub fn tick(&mut self, now: Nanos)
        requires
            old(self).active_accum + old(self).accrued(now) <= u128::MAX,
        ensures
            *final(self) == old(self).settled(now),
    {
        self.settle(now);
    }

    /// Treat a terminal-output render frame at `now` as recent activity, so streaming output
    /// keeps the active counter alive even without keyboard input.
    pub fn note_render(&mut self, now: Nanos)
        requires
            old(self).active_accum + old(self).accrued(now) <= u128::MAX,
        ensures
            *final(self) == old(self).touched(now),
    {
        self.settle(now);
        self.last_activity = now;
    }

    /// Seed the cumulative project totals restored from the session file.
    pub fn set_prior(&mut self, active: Nanos, total: Nanos)
        ensures
            *final(self) == (SessionTime {
                prior_active: active,
                prior_total: total,
                ..*old(self)
            }),
    {
        self.prior_active = active;
        self.prior_total = total;
    }

    /// Active time this session (excludes inactivity).
    pub fn session_active(&self) -> (r: Nanos)
        ensures
            r == self.active_accum,
    {
        self.active_accum
    }

    /// Wall-clock time this session up to `now` (includes inactivity).
    pub fn session_total(&self, now: Nanos) -> (r: Nanos)
        ensures
            r == time_between(self.session_start, now),
    {
        elapsed(self.session_start, now)
    }

    /// Cumulative active time across all sessions for this project.
    pub fn project_active(&self) -> (r: Nanos)
        requires
            self.prior_active + self.active_accum <= u128::MAX,
        ensures
            r == self.prior_active + self.active_accum,
    {
        self.prior_active + self.active_accum
    }

    /// Cumulative wall-clock time up to `now` across all sessions for this project.
    pub fn project_total(&self, now: Nanos) -> (r: Nanos)
        requires
            self.prior_total + time_between(self.session_start, now) <= u128::MAX,
        ensures
            r == self.prior_total + time_between(self.session_start, now),
    {
        self.prior_total + self.session_total(now)
    }
}

/// Active time never decreases, and a settle point adds no more than the time since the last.
pub proof fn law_active_time_never_decreases(t: SessionTime, now: Nanos)
    requires
        t.active_accum + t.accrued(now) <= u128::MAX,
    ensures
        t.active_accum <= t.settled(now).active_accum <= t.active_accum + time_between(
            t.last_tick,
            now,
        ),
{
}

/// Unfocused time and idle gaps are never active.
pub proof fn law_idle_time_is_dropped(t: SessionTime, now: Nanos)
    requires
        !t.focused || time_between(t.last_activity, now) > IDLE_THRESHOLD,
    ensures
        t.settled(now).active_accum == t.active_accum,
{
}

/// Active time stays within the wall-clock time of the session, whatever settle points, inputs
/// and focus changes come, as long as the clock does not run backwards.
pub proof fn law_active_is_within_total(t: SessionTime, now: Nanos)
    requires
        t.session_start <= t.last_tick <= now,
        t.active_accum <= t.last_tick - t.session_start,
    ensures
        t.active_accum + t.accrued(now) <= u128::MAX,
        t.settled(now).session_start <= t.settled(now).last_tick,
        t.settled(now).active_accum <= t.settled(now).last_tick - t.settled(now).session_start,
        t.touched(now).active_accum <= t.touched(now).last_tick - t.touched(now).session_start,
{
}

/// Time away is never counted: from the loss of the focus to its return nothing is added, and what
/// follows counts from the return on, up to the idle threshold.
pub proof fn law_time_away_is_not_counted(t: SessionTime, lost: Nanos, back: Nanos, now: Nanos)
    requires
        lost <= back <= now <= back + IDLE_THRESHOLD,
        t.active_accum + t.accrued(lost) + (now - back) <= u128::MAX,
    ensures
        t.refocused(false, lost).refocused(true, back).active_accum == t.refocused(
            false,
            lost,
        ).active_accum,
        t.refocused(false, lost).refocused(true, back).settled(now).active_accum == t.refocused(
            false,
            lost,
        ).active_accum + (now - back),
{
}

/// Output that counts as activity does what input does: both leave the counters touched, whether
/// they were idle or not, and the time that follows counts, up to the idle threshold.
pub proof fn law_output_counts_like_input(t: SessionTime, at: Nanos, now: Nanos)
    requires
        t.focused,
        at <= now <= at + IDLE_THRESHOLD,
        t.active_accum + t.accrued(at) + (now - at) <= u128::MAX,
    ensures
        t.touched(at).settled(now).active_accum == t.touched(at).active_accum + (now - at),
{
}

/// Settling on the way adds up to the same: where a stretch of time is active throughout, two
/// settle points add what one adds.
pub proof fn law_settling_adds_up(t: SessionTime, a: Nanos, b: Nanos)
    requires
        t.last_tick <= a <= b,
        t.is_active(b),
        t.active_accum + t.accrued(b) <= u128::MAX,
    ensures
        t.settled(a).settled(b) == t.settled(b),
{
}

} // verus!
