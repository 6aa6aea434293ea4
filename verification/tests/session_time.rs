use explorer::session_time::{Nanos, SECOND, SessionTime};

const T0: Nanos = 1_000 * SECOND;

fn tracker_at(now: Nanos) -> SessionTime {
    SessionTime {
        session_start: now,
        last_activity: now,
        last_tick: now,
        active_accum: 0,
        focused: true,
        prior_active: 0,
        prior_total: 0,
    }
}

#[test]
fn settle_counts_recent_activity_but_drops_idle_gaps() {
    let t0 = T0;
    let mut st = tracker_at(t0);

    // A settle 10s after the last activity is within the threshold -> counted.
    st.settle(t0 + 10 * SECOND);
    assert_eq!(st.active_accum, 10 * SECOND);

    // New activity at t=10s, then a long silence.
    st.last_activity = t0 + 10 * SECOND;
    // Settle at t=100s: the 90s gap since last activity exceeds the threshold, so the
    // idle stretch contributes nothing.
    st.settle(t0 + 100 * SECOND);
    assert_eq!(st.active_accum, 10 * SECOND);
}

#[test]
fn unfocused_time_is_never_active() {
    let t0 = T0;
    let mut st = tracker_at(t0);
    st.focused = false;
    st.settle(t0 + 5 * SECOND);
    assert_eq!(st.active_accum, 0);
}

#[test]
fn note_render_keeps_active_accruing_past_idle() {
    let t0 = T0;
    let mut st = tracker_at(t0);

    // No input for 90s: a plain settle drops the idle stretch (nothing accrues).
    st.settle(t0 + 90 * SECOND);
    assert_eq!(st.active_accum, 0);

    // A render frame refreshes last_activity to "now", so from that point the idle clock
    // restarts.
    st.note_render(t0 + 91 * SECOND);
    let base = st.active_accum;
    // Settle 10s past that render: within the idle threshold -> the 10s counts,
    // even though no key was ever pressed.
    st.settle(st.last_tick + 10 * SECOND);
    assert_eq!(st.active_accum, base + 10 * SECOND);
}

#[test]
fn project_totals_add_prior_sessions() {
    let t0 = T0;
    let mut st = tracker_at(t0);
    st.set_prior(100 * SECOND, 200 * SECOND);
    st.settle(t0 + 10 * SECOND);
    assert_eq!(st.project_active(), 110 * SECOND);
    assert!(st.project_total(t0 + 10 * SECOND) >= 200 * SECOND);
    assert_eq!(st.project_total(t0 + 10 * SECOND), 210 * SECOND);
    assert_eq!(st.session_active(), 10 * SECOND);
    assert_eq!(st.session_total(t0 + 10 * SECOND), 10 * SECOND);
}

#[test]
fn losing_the_focus_stops_the_clock() {
    let mut st = SessionTime::starting_at(T0);
    st.on_input(T0 + 5 * SECOND);
    st.on_focus(false, T0 + 8 * SECOND);
    st.tick(T0 + 20 * SECOND);
    assert_eq!(st.active_accum, 8 * SECOND);
    st.on_focus(true, T0 + 30 * SECOND);
    st.tick(T0 + 33 * SECOND);
    assert_eq!(st.active_accum, 11 * SECOND);
}

#[test]
fn time_away_is_never_counted() {
    let mut st = tracker_at(T0);
    st.on_focus(false, T0 + 5 * SECOND);
    assert_eq!(st.session_active(), 5 * SECOND);
    st.on_focus(true, T0 + 500 * SECOND);
    assert_eq!(st.session_active(), 5 * SECOND);
    st.settle(T0 + 560 * SECOND);
    assert_eq!(st.session_active(), 65 * SECOND);
}

#[test]
fn output_counts_like_input() {
    let mut by_output = tracker_at(T0);
    let mut by_input = tracker_at(T0);
    by_output.note_render(T0 + 90 * SECOND);
    by_input.on_input(T0 + 90 * SECOND);
    assert_eq!(by_output, by_input);
    by_output.settle(T0 + 100 * SECOND);
    assert_eq!(by_output.session_active(), 10 * SECOND);
}
