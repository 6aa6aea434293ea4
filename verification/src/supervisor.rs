//! Supervision of a small, fixed set of long-lived tasks: when a task that ended is started again.

use vstd::prelude::*;
use crate::session_time::{Nanos, elapsed, time_between};

verus! {

/// How long a task must stay alive before its restart counter is reset: thirty seconds.
pub const STABILITY_THRESHOLD: Nanos = 30_000_000_000;

/// Base delay before the first restart, one second; doubles on each consecutive failure.
pub const BASE_RESTART_DELAY: Nanos = 1_000_000_000;

/// Maximum back-off delay regardless of failure count: thirty seconds.
pub const MAX_RESTART_DELAY: Nanos = 30_000_000_000;

/// How often tasks are looked at: twice a second.
pub const POLL_INTERVAL: Nanos = 500_000_000;

/// Whether a task runs.
#[derive(Clone, Copy, Debug, PartialEq, Eq, Structural)]
pub enum TaskStatus {
    Running,
    Restarting,
}

/// What is known of a task.
#[derive(Clone, Copy, Debug)]
pub struct Entry {
    pub name: &'static str,
    pub status: TaskStatus,
    pub restart_attempts: u32,
    pub started_at: Nanos,
    /// Earliest time the next restart may fire.
    pub restart_after: Option<Nanos>,
}

/// One doubled `n` times.
pub open spec fn doubled(n: int) -> int
    decreases n,
{
    if n <= 0 {
        1
    } else {
        2 * doubled(n - 1)
    }
}

/// How long a task that failed a number of times waits: twice as long for each time, but no longer
/// than the maximum.
pub open spec fn delay_after(attempts: int) -> int {
    let shift = if attempts < 5 {
        attempts
    } else {
        5
    };
    if BASE_RESTART_DELAY * doubled(shift) < MAX_RESTART_DELAY {
        BASE_RESTART_DELAY * doubled(shift)
    } else {
        MAX_RESTART_DELAY as int
    }
}

impl Entry {
    /// A task that starts at `now`.
    pub fn new(name: &'static str, now: Nanos) -> (r: Self)
        ensures
            r == (Entry {
                name,
                status: TaskStatus::Running,
                restart_attempts: 0,
                started_at: now,
                restart_after: None,
            }),
    {
        Entry {
            name,
            status: TaskStatus::Running,
            restart_attempts: 0,
            started_at: now,
            restart_after: None,
        }
    }

    /// How long the task waits before it is started again.
    pub fn restart_delay(&self) -> (r: Nanos)
        ensures
            r == delay_after(self.restart_attempts as int),
            r <= MAX_RESTART_DELAY,
    {
        proof {
            reveal_with_fuel(doubled, 7);
        }
        let factor: Nanos = match self.restart_attempts {
            0 => 1,
            1 => 2,
            2 => 4,
            3 => 8,
            4 => 16,
            _ => 32,
        };
        let delay: Nanos = BASE_RESTART_DELAY * factor;
        if delay < MAX_RESTART_DELAY {
            delay
        } else {
            MAX_RESTART_DELAY
        }
    }

    /// How often the task has failed in a row, once more counted, where it ends at `now`.
    pub open spec fn attempts_at(self, now: Nanos) -> int {
        if time_between(self.started_at, now) >= STABILITY_THRESHOLD {
            0
        } else {
            self.restart_attempts as int
        }
    }

    /// What a look at the task at `now` leads to: the task, and its new status where that changed.
    /// A task that has ended waits, and one that has waited is started again.
    pub open spec fn polled(self, finished: bool, now: Nanos) -> (Entry, Option<TaskStatus>) {
        match self.status {
            TaskStatus::Running => if finished {
                let attempts = self.attempts_at(now);
                (
                    Entry {
                        restart_attempts: (if attempts < u32::MAX {
                            attempts + 1
                        } else {
                            attempts
                        }) as u32,
                        restart_after: Some((now + delay_after(attempts)) as Nanos),
                        status: TaskStatus::Restarting,
                        ..self
                    },
                    Some(TaskStatus::Restarting),
                )
            } else {
                (self, None)
            },
            TaskStatus::Restarting => if self.restart_after matches Some(t) ==> now >= t {
                (
                    Entry {
                        started_at: now,
                        restart_after: None,
                        status: TaskStatus::Running,
                        ..self
                    },
                    Some(TaskStatus::Running),
                )
            } else {
                (self, None)
            },
        }
    }

    /// Looks at the task. Where the result is `Running`, it is to be started again.
    pub fn poll(&mut self, finished: bool, now: Nanos) -> (r: Option<TaskStatus>)
        requires
            now + MAX_RESTART_DELAY <= Nanos::MAX,
        ensures
            (*final(self), r) == old(self).polled(finished, now),
    {
        match self.status {
            TaskStatus::Running => {
                if !finished {
                    return None;
                }
                if elapsed(self.started_at, now) >= STABILITY_THRESHOLD {
                    self.restart_attempts = 0;
                }
                let delay: Nanos = self.restart_delay();
                self.restart_attempts = self.restart_attempts.saturating_add(1);
                self.restart_after = Some(now + delay);
                self.status = TaskStatus::Restarting;
                Some(TaskStatus::Restarting)
            },
            TaskStatus::Restarting => {
                let waited = match self.restart_after {
                    Some(t) => now >= t,
                    None => true,
                };
                if !waited {
                    return None;
                }
                self.started_at = now;
                self.restart_after = None;
                self.status = TaskStatus::Running;
                Some(TaskStatus::Running)
            },
        }
    }
}

/// Lightweight supervisor for a small, fixed set of long-lived tasks.
#[derive(Debug)]
pub struct Supervisor {
    pub entries: Vec<Entry>,
}

/// What a look at the first `n` tasks tells: which of them have a new status.
pub open spec fn changes(
    entries: Seq<Entry>,
    finished: Seq<bool>,
    now: Nanos,
    n: int,
) -> Seq<(usize, TaskStatus)>
    decreases n,
{
    if n <= 0 {
        Seq::empty()
    } else {
        match entries[n - 1].polled(finished[n - 1], now).1 {
            Some(status) => changes(entries, finished, now, n - 1).push(
                ((n - 1) as usize, status),
            ),
            None => changes(entries, finished, now, n - 1),
        }
    }
}

impl Supervisor {
    /// A supervisor of no tasks.
    pub fn new() -> (r: Self)
        ensures
            r.entries@ == Seq::<Entry>::empty(),
    {
        Supervisor { entries: Vec::new() }
    }

    /// Takes note of a task that starts at `now`.
    pub fn add(&mut self, name: &'static str, now: Nanos)
        ensures
            final(self).entries@ == old(self).entries@.push(
                (Entry {
                    name,
                    status: TaskStatus::Running,
                    restart_attempts: 0,
                    started_at: now,
                    restart_after: None,
                }),
            ),
    {
        self.entries.push(Entry::new(name, now));
    }

    /// Looks at all tasks; `finished` says which of them have ended. Returns those that changed
    /// status; where the status is `Running`, the task is to be started again.
    pub fn poll(&mut self, finished: &Vec<bool>, now: Nanos) -> (r: Vec<(usize, TaskStatus)>)
        requires
            finished@.len() == old(self).entries@.len(),
            now + MAX_RESTART_DELAY <= Nanos::MAX,
        ensures
            final(self).entries@ == Seq::new(
                old(self).entries@.len(),
                |i: int| old(self).entries@[i].polled(finished@[i], now).0,
            ),
            r@ == changes(
                old(self).entries@,
                finished@,
                now,
                old(self).entries@.len() as int,
            ),
    {
        let ghost before = self.entries@;
        let mut events: Vec<(usize, TaskStatus)> = Vec::new();
        let mut i: usize = 0;
        assert(events@ =~= changes(before, finished@, now, 0));
        while i < self.entries.len()
            invariant
                i <= self.entries@.len() == before.len(),
                before == old(self).entries@,
                finished@.len() == before.len(),
                now + MAX_RESTART_DELAY <= Nanos::MAX,
                forall|j: int|
                    0 <= j < i ==> self.entries@[j] == before[j].polled(finished@[j], now).0,
                forall|j: int| i <= j < before.len() ==> self.entries@[j] == before[j],
                events@ == changes(before, finished@, now, i as int),
            decreases before.len() - i,
        {
            if let Some(status) = self.entries[i].poll(finished[i], now) {
                events.push((i, status));
            }
            i += 1;
        }
        assert(self.entries@ =~= Seq::new(
            before.len(),
            |i: int| before[i].polled(finished@[i], now).0,
        ));
        events
    }
}

/// The delay before a restart is between the base delay and the maximum, and does not shrink while a
/// task keeps failing.
pub proof fn law_delay_grows_to_maximum(attempts: int)
    requires
        attempts >= 0,
    ensures
        BASE_RESTART_DELAY <= delay_after(attempts) <= MAX_RESTART_DELAY,
        delay_after(attempts) <= delay_after(attempts + 1),
        attempts >= 5 ==> delay_after(attempts) == MAX_RESTART_DELAY,
{
    reveal_with_fuel(doubled, 7);
}

/// A task that ends is started again at the first look once its delay is over, and not before.
pub proof fn law_ended_task_comes_back(entry: Entry, ended: Nanos, later: Nanos, finished: bool)
    requires
        entry.status == TaskStatus::Running,
        ended + MAX_RESTART_DELAY <= Nanos::MAX,
    ensures
        ({
            let waiting = entry.polled(true, ended).0;
            let delay = delay_after(entry.attempts_at(ended));
            &&& waiting.status == TaskStatus::Restarting
            &&& waiting.polled(finished, later).1 == if later >= ended + delay {
                Some(TaskStatus::Running)
            } else {
                None
            }
        }),
{
    law_delay_grows_to_maximum(entry.attempts_at(ended));
}

/// A task that was stable for long enough starts to count its failures anew.
pub proof fn law_stable_task_waits_shortest(entry: Entry, ended: Nanos)
    requires
        entry.status == TaskStatus::Running,
        ended + MAX_RESTART_DELAY <= Nanos::MAX,
        entry.started_at + STABILITY_THRESHOLD <= ended,
    ensures
        entry.polled(true, ended).0.restart_attempts == 1,
        entry.polled(true, ended).0.restart_after == Some((ended + BASE_RESTART_DELAY) as Nanos),
{
    reveal_with_fuel(doubled, 7);
}

} // verus!
