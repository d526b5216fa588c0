//! The GPS duty-cycle controller: one decision per 200 ms tick.
//!
//! Each tick takes the current state, the fix and motion flags, the keep-alive
//! flag, whether the speed is above the vehicle threshold and the receiver's
//! acknowledgement, and returns the next state with the actions to perform in
//! order (power, receiver writes, logging). The receiver pin, the UART, the
//! shared snapshot and the log store are the caller's.
use vstd::prelude::*;
use crate::agnss::{AgnssAck, AgnssMessage, AgnssOutcome, AgnssState, elapsed};
use crate::system_info::GpsState;

verus! {

pub const T_ACTIVE_SAMPLING_INTERVAL_MS: u64 = 1_000;

pub const T_STILLNESS_CONFIRM_DURATION_MS: u64 = 60_000;

pub const T_GPS_QUERY_TIMEOUT_FOR_STILLNESS_MS: u64 = 5_000;

pub const T_GPS_COLD_START_FIX_TIMEOUT_MS: u64 = 90_000;

pub const T_GPS_REACQUIRE_FIX_TIMEOUT_MS: u64 = 30_000;

pub const MAX_CONSECUTIVE_FIX_FAILURES: u8 = 16;

pub const STATE_TICK_INTERVAL_MS: u64 = 200;

/// Whether a timer started at `start` has run for `timeout_ms` (wrapping).
pub fn has_elapsed(start: Option<u64>, now_ms: u64, timeout_ms: u64) -> (r: bool)
    ensures
        r == (start matches Some(s) && elapsed(now_ms, s) >= timeout_ms),
{
    match start {
        Some(start_ms) => now_ms.wrapping_sub(start_ms) >= timeout_ms,
        None => false,
    }
}

/// What the caller does, in order, after a tick.
pub enum GpsAction {
    /// Drive the receiver's enable pin high.
    PowerOn,
    /// Drive it low, clear the fix in the snapshot and reset the parsers.
    PowerOff,
    /// Write an assisted-data message to the receiver.
    Write(AgnssMessage),
    /// Send the receiver's warm-restart command.
    WarmRestart,
    /// Remember the current fix as the last good position.
    RecordFix,
    /// Remember the current fix and append it to the track log.
    LogPoint,
}

/// What the tick observed.
#[derive(Clone, Copy, Debug)]
pub struct StepInput {
    pub state: GpsState,
    pub location_valid: bool,
    /// Stationary, unless a wake-up was requested since the last tick.
    pub is_stationary: bool,
    pub keep_alive: bool,
    /// The speed is above the vehicle threshold.
    pub fast: bool,
    pub ack: AgnssAck,
}

pub struct StepOutput {
    pub next_state: GpsState,
    pub actions: Vec<GpsAction>,
}

/// Timers and counters of the controller.
pub struct GpsStateMachine {
    pub stillness_confirm_start: Option<u64>,
    pub active_sampling_start: Option<u64>,
    pub fix_attempt_start: Option<u64>,
    pub gps_query_timeout_start: Option<u64>,
    pub consecutive_fix_failures: u8,
    pub is_gps_powered_on: bool,
    pub is_first_fix_attempt_cycle: bool,
}

/// The messages written to the receiver by a list of actions, in order.
pub open spec fn written(actions: Seq<GpsAction>) -> Seq<Seq<u8>>
    decreases actions.len(),
{
    if actions.len() == 0 {
        Seq::empty()
    } else {
        written(actions.drop_last()) + match actions.last() {
            GpsAction::Write(m) => seq![m@],
            _ => Seq::empty(),
        }
    }
}

/// Whether the actions ask to log the current fix.
pub open spec fn logs(actions: Seq<GpsAction>) -> bool {
    exists|k: int| 0 <= k < actions.len() && actions[k] is LogPoint
}

pub open spec fn next_index(a: AgnssState) -> int {
    if a.current_index == usize::MAX {
        usize::MAX as int
    } else {
        a.current_index + 1
    }
}

/// The one message written by a tick, if any: the first of the batch when an
/// upload starts; in an upload, the next message after an acknowledgement or
/// after the third unanswered try, else the same message again on a timeout.
pub open spec fn expected_writes(m: GpsStateMachine, a: AgnssState, i: StepInput, now: u64) -> Seq<
    Seq<u8>,
> {
    match i.state {
        GpsState::S0Initializing => Seq::empty(),
        GpsState::S5AgnssProcessing => if i.ack != AgnssAck::NoReply {
            if next_index(a) >= a.queue@.len() {
                Seq::empty()
            } else {
                seq![a.queue@[next_index(a)]]
            }
        } else if a.message_timer_start matches Some(s) && elapsed(now, s)
            >= crate::agnss::T_AGNSS_MESSAGE_SEND_TIMEOUT_MS {
            let tries = if a.current_retry == 255 {
                255
            } else {
                a.current_retry + 1
            };
            if tries >= crate::agnss::MAX_AGNSS_MESSAGE_RETRY {
                if next_index(a) >= a.queue@.len() {
                    Seq::empty()
                } else {
                    seq![a.queue@[next_index(a)]]
                }
            } else if a.current_index >= a.queue@.len() {
                Seq::empty()
            } else {
                seq![a.queue@[a.current_index as int]]
            }
        } else {
            Seq::empty()
        },
        _ => if next_state(m, a, i, now) == GpsState::S5AgnssProcessing {
            seq![a.queue@[0]]
        } else {
            Seq::empty()
        },
    }
}

fn push_action(actions: &mut Vec<GpsAction>, act: GpsAction)
    ensures
        final(actions)@ == old(actions)@.push(act),
        written(final(actions)@) == written(old(actions)@) + match act {
            GpsAction::Write(m) => seq![m@],
            _ => Seq::empty(),
        },
        logs(old(actions)@) ==> logs(final(actions)@),
        act is LogPoint ==> logs(final(actions)@),
        kinds(final(actions)@) == kinds(old(actions)@).push(kind(act)),
{
    let ghost before = actions@;
    actions.push(act);
    proof {
        assert(actions@.drop_last() =~= before);
        assert(kinds(actions@) =~= kinds(before).push(kind(act)));
        if logs(before) {
            let k = choose|k: int| 0 <= k < before.len() && before[k] is LogPoint;
            assert(actions@[k] is LogPoint);
        }
        if actions@[before.len() as int] is LogPoint {
            assert(logs(actions@));
        }
    }
}

/// The kind of an action, without its message.
#[derive(PartialEq, Eq, Structural)]
pub enum ActionKind {
    PowerOn,
    PowerOff,
    Write,
    WarmRestart,
    RecordFix,
    LogPoint,
}

pub open spec fn kind(a: GpsAction) -> ActionKind {
    match a {
        GpsAction::PowerOn => ActionKind::PowerOn,
        GpsAction::PowerOff => ActionKind::PowerOff,
        GpsAction::Write(_) => ActionKind::Write,
        GpsAction::WarmRestart => ActionKind::WarmRestart,
        GpsAction::RecordFix => ActionKind::RecordFix,
        GpsAction::LogPoint => ActionKind::LogPoint,
    }
}

/// The kinds of a list of actions, in order.
pub open spec fn kinds(acts: Seq<GpsAction>) -> Seq<ActionKind> {
    acts.map_values(|a: GpsAction| kind(a))
}

pub open spec fn elapsed_since(t: Option<u64>, now: u64, limit: u64) -> bool {
    t matches Some(s) && elapsed(now, s) >= limit
}

pub open spec fn reset_timers(m: GpsStateMachine) -> GpsStateMachine {
    GpsStateMachine {
        stillness_confirm_start: None,
        active_sampling_start: None,
        fix_attempt_start: None,
        gps_query_timeout_start: None,
        ..m
    }
}

/// Power on, unless already on.
pub open spec fn power_on(m: GpsStateMachine) -> (GpsStateMachine, Seq<ActionKind>) {
    if m.is_gps_powered_on {
        (m, Seq::empty())
    } else {
        (GpsStateMachine { is_gps_powered_on: true, ..m }, seq![ActionKind::PowerOn])
    }
}

pub open spec fn power_off(m: GpsStateMachine) -> (GpsStateMachine, Seq<ActionKind>) {
    (GpsStateMachine { is_gps_powered_on: false, ..m }, seq![ActionKind::PowerOff])
}

/// Starting an upload: timers reset, receiver on, first message written.
pub open spec fn trigger(m: GpsStateMachine, a: AgnssState, state: GpsState, now: u64) -> (
    GpsStateMachine,
    Seq<ActionKind>,
) {
    if a.should_trigger_spec(now, state) {
        let (m2, k) = power_on(reset_timers(m));
        (m2, k.push(ActionKind::Write))
    } else {
        (m, Seq::empty())
    }
}

/// Returning from an upload to `prev`'s state, its entry timer set.
pub open spec fn back(m: GpsStateMachine, prev: GpsState, now: u64) -> (
    GpsStateMachine,
    Seq<ActionKind>,
) {
    let m0 = reset_timers(m);
    match prev {
        GpsState::S1GpsSearchingFix => power_on(
            GpsStateMachine { fix_attempt_start: Some(now), ..m0 },
        ),
        GpsState::S3TrackingFixed => (
            GpsStateMachine { active_sampling_start: Some(now), ..m0 },
            Seq::empty(),
        ),
        GpsState::S4AnalyzingStillness => (
            GpsStateMachine { gps_query_timeout_start: Some(now), ..m0 },
            Seq::empty(),
        ),
        _ => power_off(m0),
    }
}

/// The controller after a tick, with the kinds of the actions it asks for.
pub open spec fn tick(m: GpsStateMachine, a: AgnssState, i: StepInput, now: u64) -> (
    GpsStateMachine,
    Seq<ActionKind>,
) {
    match i.state {
        GpsState::S0Initializing => {
            let (m1, k1) = power_off(m);
            (GpsStateMachine { is_first_fix_attempt_cycle: true, ..reset_timers(m1) }, k1)
        },
        GpsState::S1GpsSearchingFix => {
            let m1 = if m.fix_attempt_start is None {
                GpsStateMachine { fix_attempt_start: Some(now), ..m }
            } else {
                m
            };
            let (m2, k2) = power_on(m1);
            let limit = if m.is_first_fix_attempt_cycle {
                T_GPS_COLD_START_FIX_TIMEOUT_MS
            } else {
                T_GPS_REACQUIRE_FIX_TIMEOUT_MS
            };
            if i.location_valid {
                (
                    GpsStateMachine {
                        active_sampling_start: Some(now),
                        consecutive_fix_failures: 0,
                        is_first_fix_attempt_cycle: false,
                        ..reset_timers(m2)
                    },
                    k2.push(ActionKind::RecordFix),
                )
            } else if elapsed_since(m2.fix_attempt_start, now, limit) {
                let f = if m.consecutive_fix_failures == 255 {
                    255u8
                } else {
                    (m.consecutive_fix_failures + 1) as u8
                };
                let restart = f >= MAX_CONSECUTIVE_FIX_FAILURES;
                let m3 = GpsStateMachine {
                    consecutive_fix_failures: if restart {
                        0
                    } else {
                        f
                    },
                    ..m2
                };
                let k3 = if restart {
                    k2.push(ActionKind::WarmRestart)
                } else {
                    k2
                };
                if i.keep_alive {
                    (GpsStateMachine { fix_attempt_start: Some(now), ..m3 }, k3)
                } else {
                    let (m4, k4) = power_off(m3);
                    (GpsStateMachine { is_first_fix_attempt_cycle: true, ..reset_timers(m4) }, k3 + k4)
                }
            } else {
                let (m5, k5) = trigger(m2, a, i.state, now);
                (m5, k2 + k5)
            }
        },
        GpsState::S2IdleGpsOff => {
            let (m1, k1) = if m.is_gps_powered_on {
                power_off(m)
            } else {
                (m, Seq::empty())
            };
            if !i.is_stationary || i.keep_alive {
                let (m2, k2) = power_on(m1);
                (GpsStateMachine { fix_attempt_start: Some(now), ..reset_timers(m2) }, k1 + k2)
            } else {
                let (m3, k3) = trigger(m1, a, i.state, now);
                (m3, k1 + k3)
            }
        },
        GpsState::S3TrackingFixed => {
            let m1 = if m.active_sampling_start is None {
                GpsStateMachine { active_sampling_start: Some(now), ..m }
            } else {
                m
            };
            let (m2, k2) = power_on(m1);
            if !i.location_valid {
                (GpsStateMachine { fix_attempt_start: Some(now), ..reset_timers(m2) }, k2)
            } else {
                let logp = elapsed_since(m2.active_sampling_start, now, T_ACTIVE_SAMPLING_INTERVAL_MS);
                let m3 = if logp {
                    GpsStateMachine { active_sampling_start: Some(now), ..m2 }
                } else {
                    m2
                };
                let k3 = if logp {
                    k2.push(ActionKind::LogPoint)
                } else {
                    k2
                };
                let m4 = if !i.is_stationary || i.keep_alive {
                    GpsStateMachine { stillness_confirm_start: None, ..m3 }
                } else if m3.stillness_confirm_start is None {
                    GpsStateMachine { stillness_confirm_start: Some(now), ..m3 }
                } else {
                    m3
                };
                if i.is_stationary && !i.keep_alive && elapsed_since(
                    m4.stillness_confirm_start,
                    now,
                    T_STILLNESS_CONFIRM_DURATION_MS,
                ) {
                    (GpsStateMachine { gps_query_timeout_start: Some(now), ..reset_timers(m4) }, k3)
                } else {
                    let (m5, k5) = trigger(m4, a, i.state, now);
                    (m5, k3 + k5)
                }
            }
        },
        GpsState::S4AnalyzingStillness => {
            let m1 = if m.gps_query_timeout_start is None {
                GpsStateMachine { gps_query_timeout_start: Some(now), ..m }
            } else {
                m
            };
            let (m2, k2) = power_on(m1);
            if !i.is_stationary || i.keep_alive {
                (GpsStateMachine { active_sampling_start: Some(now), ..reset_timers(m2) }, k2)
            } else {
                let to = elapsed_since(m2.gps_query_timeout_start, now, T_GPS_QUERY_TIMEOUT_FOR_STILLNESS_MS);
                if to || i.location_valid {
                    if !to && i.location_valid && i.fast {
                        (GpsStateMachine { active_sampling_start: Some(now), ..reset_timers(m2) }, k2)
                    } else {
                        let (m3, k3) = power_off(m2);
                        (GpsStateMachine { is_first_fix_attempt_cycle: true, ..reset_timers(m3) }, k2 + k3)
                    }
                } else {
                    let (m4, k4) = trigger(m2, a, i.state, now);
                    (m4, k2 + k4)
                }
            }
        },
        GpsState::S5AgnssProcessing => {
            let (m1, k1) = power_on(m);
            let tries = if a.current_retry == 255 {
                255
            } else {
                a.current_retry + 1
            };
            let done = if i.ack != AgnssAck::NoReply {
                Some(next_index(a) >= a.queue@.len())
            } else if elapsed_since(a.message_timer_start, now, crate::agnss::T_AGNSS_MESSAGE_SEND_TIMEOUT_MS) {
                if tries >= crate::agnss::MAX_AGNSS_MESSAGE_RETRY {
                    Some(next_index(a) >= a.queue@.len())
                } else {
                    Some(a.current_index >= a.queue@.len())
                }
            } else if elapsed_since(a.total_timer_start, now, crate::agnss::T_AGNSS_TOTAL_TIMEOUT_MS) {
                Some(true)
            } else {
                None
            };
            match done {
                Some(true) => {
                    let (m2, k2) = back(m1, a.previous_state, now);
                    (m2, k1 + k2)
                },
                Some(false) => (m1, k1.push(ActionKind::Write)),
                None => (m1, k1),
            }
        },
    }
}

/// The AGNSS fields that a tick reads and writes.
pub struct AgnssSummary {
    pub queue: Seq<Seq<u8>>,
    pub index: int,
    pub retry: int,
    pub msg_timer: Option<u64>,
    pub total_timer: Option<u64>,
    pub previous: GpsState,
    pub pending: bool,
    pub force: bool,
}

pub open spec fn summary(a: AgnssState) -> AgnssSummary {
    AgnssSummary {
        queue: a.queue@,
        index: a.current_index as int,
        retry: a.current_retry as int,
        msg_timer: a.message_timer_start,
        total_timer: a.total_timer_start,
        previous: a.previous_state,
        pending: a.request_pending,
        force: a.force_trigger,
    }
}

/// The upload cleared: empty queue, counters and timers reset.
pub open spec fn finished(a: AgnssState) -> AgnssSummary {
    AgnssSummary {
        queue: Seq::empty(),
        index: 0,
        retry: 0,
        msg_timer: None,
        total_timer: None,
        previous: a.previous_state,
        pending: false,
        force: false,
    }
}

/// The AGNSS state after a tick. While an upload runs the queue is kept; the
/// index moves on after an acknowledgement or the third unanswered try, the
/// retry count grows on each unanswered timeout, and the message timer restarts
/// at every write.
pub open spec fn agnss_after(m: GpsStateMachine, a: AgnssState, i: StepInput, now: u64) -> AgnssSummary {
    let sa = summary(a);
    let tries = if a.current_retry == 255 {
        255int
    } else {
        a.current_retry + 1
    };
    match i.state {
        GpsState::S0Initializing => sa,
        GpsState::S5AgnssProcessing => if i.ack != AgnssAck::NoReply {
            if next_index(a) >= a.queue@.len() {
                finished(a)
            } else {
                AgnssSummary { index: next_index(a), retry: 0, msg_timer: Some(now), ..sa }
            }
        } else if elapsed_since(a.message_timer_start, now, crate::agnss::T_AGNSS_MESSAGE_SEND_TIMEOUT_MS) {
            if tries >= crate::agnss::MAX_AGNSS_MESSAGE_RETRY {
                if next_index(a) >= a.queue@.len() {
                    finished(a)
                } else {
                    AgnssSummary { index: next_index(a), retry: 0, msg_timer: Some(now), ..sa }
                }
            } else if a.current_index >= a.queue@.len() {
                finished(a)
            } else {
                AgnssSummary { retry: tries, msg_timer: Some(now), ..sa }
            }
        } else if elapsed_since(a.total_timer_start, now, crate::agnss::T_AGNSS_TOTAL_TIMEOUT_MS) {
            finished(a)
        } else if !i.is_stationary && (a.previous_state == GpsState::S2IdleGpsOff
            || a.previous_state == GpsState::S4AnalyzingStillness) {
            AgnssSummary { previous: GpsState::S3TrackingFixed, ..sa }
        } else {
            sa
        },
        _ => if next_state(m, a, i, now) == GpsState::S5AgnssProcessing {
            AgnssSummary {
                index: 0,
                retry: 0,
                msg_timer: Some(now),
                total_timer: Some(now),
                previous: i.state,
                pending: false,
                force: false,
                ..sa
            }
        } else {
            sa
        },
    }
}

/// The state to return to after an upload.
pub open spec fn return_state(prev: GpsState) -> GpsState {
    match prev {
        GpsState::S1GpsSearchingFix => GpsState::S1GpsSearchingFix,
        GpsState::S3TrackingFixed => GpsState::S3TrackingFixed,
        GpsState::S4AnalyzingStillness => GpsState::S4AnalyzingStillness,
        _ => GpsState::S2IdleGpsOff,
    }
}

pub open spec fn started_or(t: Option<u64>, now: u64) -> u64 {
    match t {
        Some(s) => s,
        None => now,
    }
}

/// The next state of a tick.
pub open spec fn next_state(m: GpsStateMachine, a: AgnssState, i: StepInput, now: u64) -> GpsState {
    let trig = a.should_trigger_spec(now, i.state);
    match i.state {
        GpsState::S0Initializing => GpsState::S2IdleGpsOff,
        GpsState::S1GpsSearchingFix => {
            let limit = if m.is_first_fix_attempt_cycle {
                T_GPS_COLD_START_FIX_TIMEOUT_MS
            } else {
                T_GPS_REACQUIRE_FIX_TIMEOUT_MS
            };
            if i.location_valid {
                GpsState::S3TrackingFixed
            } else if elapsed(now, started_or(m.fix_attempt_start, now)) >= limit {
                if i.keep_alive {
                    GpsState::S1GpsSearchingFix
                } else {
                    GpsState::S2IdleGpsOff
                }
            } else if trig {
                GpsState::S5AgnssProcessing
            } else {
                GpsState::S1GpsSearchingFix
            }
        },
        GpsState::S2IdleGpsOff => if !i.is_stationary || i.keep_alive {
            GpsState::S1GpsSearchingFix
        } else if trig {
            GpsState::S5AgnssProcessing
        } else {
            GpsState::S2IdleGpsOff
        },
        GpsState::S3TrackingFixed => if !i.location_valid {
            GpsState::S1GpsSearchingFix
        } else if i.is_stationary && !i.keep_alive && elapsed(
            now,
            started_or(m.stillness_confirm_start, now),
        ) >= T_STILLNESS_CONFIRM_DURATION_MS {
            GpsState::S4AnalyzingStillness
        } else if trig {
            GpsState::S5AgnssProcessing
        } else {
            GpsState::S3TrackingFixed
        },
        GpsState::S4AnalyzingStillness => {
            let timed_out = elapsed(now, started_or(m.gps_query_timeout_start, now))
                >= T_GPS_QUERY_TIMEOUT_FOR_STILLNESS_MS;
            if !i.is_stationary || i.keep_alive {
                GpsState::S3TrackingFixed
            } else if timed_out || i.location_valid {
                if !timed_out && i.location_valid && i.fast {
                    GpsState::S3TrackingFixed
                } else {
                    GpsState::S2IdleGpsOff
                }
            } else if trig {
                GpsState::S5AgnssProcessing
            } else {
                GpsState::S4AnalyzingStillness
            }
        },
        GpsState::S5AgnssProcessing => {
            let back = return_state(a.previous_state);
            if i.ack != AgnssAck::NoReply {
                let next = if a.current_index == usize::MAX {
                    usize::MAX as int
                } else {
                    a.current_index + 1
                };
                if next >= a.queue@.len() {
                    back
                } else {
                    GpsState::S5AgnssProcessing
                }
            } else if a.message_timer_start matches Some(s) && elapsed(now, s)
                >= crate::agnss::T_AGNSS_MESSAGE_SEND_TIMEOUT_MS {
                let retry = if a.current_retry == 255 {
                    255
                } else {
                    a.current_retry + 1
                };
                let next = if a.current_index == usize::MAX {
                    usize::MAX as int
                } else {
                    a.current_index + 1
                };
                if retry >= crate::agnss::MAX_AGNSS_MESSAGE_RETRY {
                    if next >= a.queue@.len() {
                        back
                    } else {
                        GpsState::S5AgnssProcessing
                    }
                } else if a.current_index >= a.queue@.len() {
                    back
                } else {
                    GpsState::S5AgnssProcessing
                }
            } else if a.total_timer_start matches Some(s) && elapsed(now, s)
                >= crate::agnss::T_AGNSS_TOTAL_TIMEOUT_MS {
                back
            } else {
                GpsState::S5AgnssProcessing
            }
        },
    }
}

impl AgnssState {
    pub open spec fn should_trigger_spec(&self, now_ms: u64, state: GpsState) -> bool {
        now_ms >= crate::agnss::AGNSS_TRIGGER_DELAY_MS && (self.request_pending
            || self.force_trigger) && self.queue@.len() > 0 && state != GpsState::S5AgnssProcessing
    }
}

impl GpsStateMachine {
    pub fn new() -> (r: Self)
        ensures
            r.stillness_confirm_start is None && r.active_sampling_start is None,
            r.fix_attempt_start is None && r.gps_query_timeout_start is None,
            r.consecutive_fix_failures == 0,
            !r.is_gps_powered_on && r.is_first_fix_attempt_cycle,
    {
        GpsStateMachine {
            stillness_confirm_start: None,
            active_sampling_start: None,
            fix_attempt_start: None,
            gps_query_timeout_start: None,
            consecutive_fix_failures: 0,
            is_gps_powered_on: false,
            is_first_fix_attempt_cycle: true,
        }
    }

    pub fn reset_state_timers(&mut self)
        ensures
            final(self).stillness_confirm_start is None,
            final(self).active_sampling_start is None,
            final(self).fix_attempt_start is None,
            final(self).gps_query_timeout_start is None,
            final(self).consecutive_fix_failures == old(self).consecutive_fix_failures,
            final(self).is_gps_powered_on == old(self).is_gps_powered_on,
            final(self).is_first_fix_attempt_cycle == old(self).is_first_fix_attempt_cycle,
            *final(self) == reset_timers(*old(self)),
    {
        self.stillness_confirm_start = None;
        self.active_sampling_start = None;
        self.fix_attempt_start = None;
        self.gps_query_timeout_start = None;
    }

    fn power_on_gps(&mut self, actions: &mut Vec<GpsAction>)
        ensures
            final(self).is_gps_powered_on,
            final(self).stillness_confirm_start == old(self).stillness_confirm_start,
            final(self).active_sampling_start == old(self).active_sampling_start,
            final(self).fix_attempt_start == old(self).fix_attempt_start,
            final(self).gps_query_timeout_start == old(self).gps_query_timeout_start,
            final(self).consecutive_fix_failures == old(self).consecutive_fix_failures,
            final(self).is_first_fix_attempt_cycle == old(self).is_first_fix_attempt_cycle,
            written(final(actions)@) == written(old(actions)@),
            logs(old(actions)@) ==> logs(final(actions)@),
            *final(self) == power_on(*old(self)).0,
            kinds(final(actions)@) == kinds(old(actions)@) + power_on(*old(self)).1,
    {
        if self.is_gps_powered_on {
            return;
        }
        push_action(actions, GpsAction::PowerOn);
        self.is_gps_powered_on = true;
    }

    fn power_off_gps(&mut self, actions: &mut Vec<GpsAction>)
        ensures
            !final(self).is_gps_powered_on,
            final(self).stillness_confirm_start == old(self).stillness_confirm_start,
            final(self).active_sampling_start == old(self).active_sampling_start,
            final(self).fix_attempt_start == old(self).fix_attempt_start,
            final(self).gps_query_timeout_start == old(self).gps_query_timeout_start,
            final(self).consecutive_fix_failures == old(self).consecutive_fix_failures,
            final(self).is_first_fix_attempt_cycle == old(self).is_first_fix_attempt_cycle,
            written(final(actions)@) == written(old(actions)@),
            logs(old(actions)@) ==> logs(final(actions)@),
            *final(self) == power_off(*old(self)).0,
            kinds(final(actions)@) == kinds(old(actions)@) + power_off(*old(self)).1,
    {
        push_action(actions, GpsAction::PowerOff);
        self.is_gps_powered_on = false;
    }

    /// Starts an upload when one is due; true when it did.
    fn maybe_trigger_agnss(
        &mut self,
        agnss: &mut AgnssState,
        state: GpsState,
        now_ms: u64,
        actions: &mut Vec<GpsAction>,
    ) -> (r: bool)
        requires
            old(agnss).wf(),
        ensures
            final(agnss).wf(),
            r == old(agnss).should_trigger_spec(now_ms, state),
            r ==> final(agnss).previous_state == state,
            !r ==> final(agnss).previous_state == old(agnss).previous_state,
            final(agnss).queue@ == old(agnss).queue@,
            r ==> written(final(actions)@) == written(old(actions)@).push(old(agnss).queue@[0]),
            !r ==> written(final(actions)@) == written(old(actions)@),
            r ==> final(agnss).current_index == 0 && final(agnss).current_retry == 0
                && final(agnss).message_timer_start == Some(now_ms)
                && final(agnss).total_timer_start == Some(now_ms),
            !r ==> final(agnss).current_index == old(agnss).current_index
                && final(agnss).current_retry == old(agnss).current_retry,
            logs(old(actions)@) ==> logs(final(actions)@),
            *final(self) == trigger(*old(self), *old(agnss), state, now_ms).0,
            kinds(final(actions)@) == kinds(old(actions)@) + trigger(*old(self), *old(agnss), state, now_ms).1,
            !r ==> *final(agnss) == *old(agnss),
            r ==> final(agnss).request_pending == false && final(agnss).force_trigger == false,
    {
        if !agnss.should_trigger(now_ms, state) {
            return false;
        }
        let message = agnss.start_processing(now_ms, state);
        let message = match message {
            Some(m) => m,
            None => return false,
        };
        self.reset_state_timers();
        self.power_on_gps(actions);
        push_action(actions, GpsAction::Write(message));
        agnss.mark_message_sent(now_ms);
        true
    }

    /// Ends an upload and enters the state it returns to.
    fn transition_back_from_agnss(
        &mut self,
        agnss: &mut AgnssState,
        now_ms: u64,
        actions: &mut Vec<GpsAction>,
    ) -> (r: GpsState)
        requires
            old(agnss).wf(),
        ensures
            final(agnss).wf(),
            r == return_state(old(agnss).previous_state),
            final(agnss).queue@.len() == 0,
            written(final(actions)@) == written(old(actions)@),
            final(self).stillness_confirm_start is None,
            final(self).fix_attempt_start == (if r == GpsState::S1GpsSearchingFix {
                Some(now_ms)
            } else {
                None
            }),
            final(self).active_sampling_start == (if r == GpsState::S3TrackingFixed {
                Some(now_ms)
            } else {
                None
            }),
            final(self).gps_query_timeout_start == (if r == GpsState::S4AnalyzingStillness {
                Some(now_ms)
            } else {
                None
            }),
            r == GpsState::S2IdleGpsOff ==> !final(self).is_gps_powered_on,
            r == GpsState::S1GpsSearchingFix ==> final(self).is_gps_powered_on,
            logs(old(actions)@) ==> logs(final(actions)@),
            *final(self) == back(*old(self), old(agnss).previous_state, now_ms).0,
            kinds(final(actions)@) == kinds(old(actions)@) + back(*old(self), old(agnss).previous_state, now_ms).1,
            summary(*final(agnss)) == finished(*old(agnss)),
    {
        let previous_state = agnss.finish_processing();
        assert(agnss.queue@ =~= Seq::<Seq<u8>>::empty());
        self.reset_state_timers();
        match previous_state {
            GpsState::S1GpsSearchingFix => {
                self.fix_attempt_start = Some(now_ms);
                self.power_on_gps(actions);
                GpsState::S1GpsSearchingFix
            },
            GpsState::S3TrackingFixed => {
                self.active_sampling_start = Some(now_ms);
                GpsState::S3TrackingFixed
            },
            GpsState::S4AnalyzingStillness => {
                self.gps_query_timeout_start = Some(now_ms);
                GpsState::S4AnalyzingStillness
            },
            _ => {
                self.power_off_gps(actions);
                GpsState::S2IdleGpsOff
            },
        }
    }

    fn step_searching(
        &mut self,
        agnss: &mut AgnssState,
        input: StepInput,
        now_ms: u64,
        actions: &mut Vec<GpsAction>,
    ) -> (r: GpsState)
        requires
            old(agnss).wf(),
            input.state == GpsState::S1GpsSearchingFix,
        ensures
            final(agnss).wf(),
            r == next_state(*old(self), *old(agnss), input, now_ms),
            written(final(actions)@) == written(old(actions)@) + (if r == GpsState::S5AgnssProcessing {
                seq![old(agnss).queue@[0]]
            } else {
                Seq::empty()
            }),
            r == GpsState::S5AgnssProcessing ==> final(agnss).current_index == 0
                && final(agnss).current_retry == 0 && final(agnss).message_timer_start == Some(
                now_ms,
            ) && final(agnss).previous_state == input.state,
            *final(self) == tick(*old(self), *old(agnss), input, now_ms).0,
            kinds(final(actions)@) == kinds(old(actions)@) + tick(*old(self), *old(agnss), input, now_ms).1,
            summary(*final(agnss)) == agnss_after(*old(self), *old(agnss), input, now_ms),
    {
        if self.fix_attempt_start.is_none() {
            self.fix_attempt_start = Some(now_ms);
        }
        self.power_on_gps(actions);
        if input.location_valid {
            self.reset_state_timers();
            self.active_sampling_start = Some(now_ms);
            self.consecutive_fix_failures = 0;
            self.is_first_fix_attempt_cycle = false;
            push_action(actions, GpsAction::RecordFix);
            return GpsState::S3TrackingFixed;
        }
        let fix_timeout = if self.is_first_fix_attempt_cycle {
            T_GPS_COLD_START_FIX_TIMEOUT_MS
        } else {
            T_GPS_REACQUIRE_FIX_TIMEOUT_MS
        };
        if has_elapsed(self.fix_attempt_start, now_ms, fix_timeout) {
            self.consecutive_fix_failures = if self.consecutive_fix_failures == 255 {
                255
            } else {
                self.consecutive_fix_failures + 1
            };
            if self.consecutive_fix_failures >= MAX_CONSECUTIVE_FIX_FAILURES {
                push_action(actions, GpsAction::WarmRestart);
                self.consecutive_fix_failures = 0;
            }
            if input.keep_alive {
                self.fix_attempt_start = Some(now_ms);
                return GpsState::S1GpsSearchingFix;
            }
            self.power_off_gps(actions);
            self.reset_state_timers();
            self.is_first_fix_attempt_cycle = true;
            return GpsState::S2IdleGpsOff;
        }
        if self.maybe_trigger_agnss(agnss, input.state, now_ms, actions) {
            return GpsState::S5AgnssProcessing;
        }
        GpsState::S1GpsSearchingFix
    }

    fn step_idle(
        &mut self,
        agnss: &mut AgnssState,
        input: StepInput,
        now_ms: u64,
        actions: &mut Vec<GpsAction>,
    ) -> (r: GpsState)
        requires
            old(agnss).wf(),
            input.state == GpsState::S2IdleGpsOff,
        ensures
            final(agnss).wf(),
            r == next_state(*old(self), *old(agnss), input, now_ms),
            written(final(actions)@) == written(old(actions)@) + (if r == GpsState::S5AgnssProcessing {
                seq![old(agnss).queue@[0]]
            } else {
                Seq::empty()
            }),
            r == GpsState::S5AgnssProcessing ==> final(agnss).current_index == 0
                && final(agnss).current_retry == 0 && final(agnss).message_timer_start == Some(
                now_ms,
            ) && final(agnss).previous_state == input.state,
            *final(self) == tick(*old(self), *old(agnss), input, now_ms).0,
            kinds(final(actions)@) == kinds(old(actions)@) + tick(*old(self), *old(agnss), input, now_ms).1,
            summary(*final(agnss)) == agnss_after(*old(self), *old(agnss), input, now_ms),
    {
        if self.is_gps_powered_on {
            self.power_off_gps(actions);
        }
        if !input.is_stationary || input.keep_alive {
            self.power_on_gps(actions);
            self.reset_state_timers();
            self.fix_attempt_start = Some(now_ms);
            return GpsState::S1GpsSearchingFix;
        }
        if self.maybe_trigger_agnss(agnss, input.state, now_ms, actions) {
            return GpsState::S5AgnssProcessing;
        }
        GpsState::S2IdleGpsOff
    }

    fn step_tracking(
        &mut self,
        agnss: &mut AgnssState,
        input: StepInput,
        now_ms: u64,
        actions: &mut Vec<GpsAction>,
    ) -> (r: GpsState)
        requires
            old(agnss).wf(),
            input.state == GpsState::S3TrackingFixed,
        ensures
            final(agnss).wf(),
            r == next_state(*old(self), *old(agnss), input, now_ms),
            written(final(actions)@) == written(old(actions)@) + (if r == GpsState::S5AgnssProcessing {
                seq![old(agnss).queue@[0]]
            } else {
                Seq::empty()
            }),
            r == GpsState::S5AgnssProcessing ==> final(agnss).current_index == 0
                && final(agnss).current_retry == 0 && final(agnss).message_timer_start == Some(
                now_ms,
            ) && final(agnss).previous_state == input.state,
            (input.location_valid && (old(self).active_sampling_start matches Some(s) && elapsed(
                now_ms,
                s,
            ) >= T_ACTIVE_SAMPLING_INTERVAL_MS)) ==> logs(final(actions)@),
            *final(self) == tick(*old(self), *old(agnss), input, now_ms).0,
            kinds(final(actions)@) == kinds(old(actions)@) + tick(*old(self), *old(agnss), input, now_ms).1,
            summary(*final(agnss)) == agnss_after(*old(self), *old(agnss), input, now_ms),
    {
        if self.active_sampling_start.is_none() {
            self.active_sampling_start = Some(now_ms);
        }
        self.power_on_gps(actions);
        if !input.location_valid {
            self.reset_state_timers();
            self.fix_attempt_start = Some(now_ms);
            return GpsState::S1GpsSearchingFix;
        }
        if has_elapsed(self.active_sampling_start, now_ms, T_ACTIVE_SAMPLING_INTERVAL_MS) {
            push_action(actions, GpsAction::LogPoint);
            self.active_sampling_start = Some(now_ms);
        }
        if !input.is_stationary || input.keep_alive {
            self.stillness_confirm_start = None;
        } else if self.stillness_confirm_start.is_none() {
            self.stillness_confirm_start = Some(now_ms);
        }
        if input.is_stationary && !input.keep_alive && has_elapsed(
            self.stillness_confirm_start,
            now_ms,
            T_STILLNESS_CONFIRM_DURATION_MS,
        ) {
            self.reset_state_timers();
            self.gps_query_timeout_start = Some(now_ms);
            return GpsState::S4AnalyzingStillness;
        }
        if self.maybe_trigger_agnss(agnss, input.state, now_ms, actions) {
            return GpsState::S5AgnssProcessing;
        }
        GpsState::S3TrackingFixed
    }

    fn step_stillness(
        &mut self,
        agnss: &mut AgnssState,
        input: StepInput,
        now_ms: u64,
        actions: &mut Vec<GpsAction>,
    ) -> (r: GpsState)
        requires
            old(agnss).wf(),
            input.state == GpsState::S4AnalyzingStillness,
        ensures
            final(agnss).wf(),
            r == next_state(*old(self), *old(agnss), input, now_ms),
            written(final(actions)@) == written(old(actions)@) + (if r == GpsState::S5AgnssProcessing {
                seq![old(agnss).queue@[0]]
            } else {
                Seq::empty()
            }),
            r == GpsState::S5AgnssProcessing ==> final(agnss).current_index == 0
                && final(agnss).current_retry == 0 && final(agnss).message_timer_start == Some(
                now_ms,
            ) && final(agnss).previous_state == input.state,
            *final(self) == tick(*old(self), *old(agnss), input, now_ms).0,
            kinds(final(actions)@) == kinds(old(actions)@) + tick(*old(self), *old(agnss), input, now_ms).1,
            summary(*final(agnss)) == agnss_after(*old(self), *old(agnss), input, now_ms),
    {
        if self.gps_query_timeout_start.is_none() {
            self.gps_query_timeout_start = Some(now_ms);
        }
        self.power_on_gps(actions);
        if !input.is_stationary || input.keep_alive {
            self.reset_state_timers();
            self.active_sampling_start = Some(now_ms);
            return GpsState::S3TrackingFixed;
        }
        let timed_out = has_elapsed(
            self.gps_query_timeout_start,
            now_ms,
            T_GPS_QUERY_TIMEOUT_FOR_STILLNESS_MS,
        );
        if timed_out || input.location_valid {
            if !timed_out && input.location_valid && input.fast {
                self.reset_state_timers();
                self.active_sampling_start = Some(now_ms);
                return GpsState::S3TrackingFixed;
            }
            self.power_off_gps(actions);
            self.reset_state_timers();
            self.is_first_fix_attempt_cycle = true;
            return GpsState::S2IdleGpsOff;
        }
        if self.maybe_trigger_agnss(agnss, input.state, now_ms, actions) {
            return GpsState::S5AgnssProcessing;
        }
        GpsState::S4AnalyzingStillness
    }

    fn step_agnss(
        &mut self,
        agnss: &mut AgnssState,
        input: StepInput,
        now_ms: u64,
        actions: &mut Vec<GpsAction>,
    ) -> (r: GpsState)
        requires
            old(agnss).wf(),
            input.state == GpsState::S5AgnssProcessing,
        ensures
            final(agnss).wf(),
            r == next_state(*old(self), *old(agnss), input, now_ms),
            written(final(actions)@) == written(old(actions)@) + expected_writes(
                *old(self),
                *old(agnss),
                input,
                now_ms,
            ),
            r != GpsState::S5AgnssProcessing ==> final(agnss).queue@.len() == 0,
            input.ack != AgnssAck::NoReply && r == GpsState::S5AgnssProcessing ==> final(agnss).current_index == next_index(*old(agnss)) && final(agnss).current_retry == 0
                && final(agnss).message_timer_start == Some(now_ms),
            *final(self) == tick(*old(self), *old(agnss), input, now_ms).0,
            kinds(final(actions)@) == kinds(old(actions)@) + tick(*old(self), *old(agnss), input, now_ms).1,
            summary(*final(agnss)) == agnss_after(*old(self), *old(agnss), input, now_ms),
    {
        self.power_on_gps(actions);
        if input.ack != AgnssAck::NoReply {
            match agnss.ack_next() {
                AgnssOutcome::Send(message) => {
                    push_action(actions, GpsAction::Write(message));
                    agnss.mark_message_sent(now_ms);
                    return GpsState::S5AgnssProcessing;
                },
                AgnssOutcome::Complete => {
                    return self.transition_back_from_agnss(agnss, now_ms, actions);
                },
            }
        }
        if agnss.message_timeout(now_ms) {
            match agnss.retry_or_fail() {
                AgnssOutcome::Send(message) => {
                    push_action(actions, GpsAction::Write(message));
                    agnss.mark_message_sent(now_ms);
                    return GpsState::S5AgnssProcessing;
                },
                AgnssOutcome::Complete => {
                    return self.transition_back_from_agnss(agnss, now_ms, actions);
                },
            }
        }
        if agnss.total_timeout(now_ms) {
            return self.transition_back_from_agnss(agnss, now_ms, actions);
        }
        if !input.is_stationary {
            agnss.note_motion();
        }
        GpsState::S5AgnssProcessing
    }

    /// One tick of the controller.
    pub fn step(&mut self, agnss: &mut AgnssState, input: StepInput, now_ms: u64) -> (r:
        StepOutput)
        requires
            old(agnss).wf(),
        ensures
            final(agnss).wf(),
            r.next_state == next_state(*old(self), *old(agnss), input, now_ms),
            written(r.actions@) == expected_writes(*old(self), *old(agnss), input, now_ms),
            *final(self) == tick(*old(self), *old(agnss), input, now_ms).0,
            kinds(r.actions@) == tick(*old(self), *old(agnss), input, now_ms).1,
            summary(*final(agnss)) == agnss_after(*old(self), *old(agnss), input, now_ms),
            (input.state == GpsState::S3TrackingFixed && input.location_valid && (old(self).active_sampling_start matches Some(s) && elapsed(now_ms, s)
                >= T_ACTIVE_SAMPLING_INTERVAL_MS)) ==> logs(r.actions@),
            r.next_state == GpsState::S5AgnssProcessing && input.state
                != GpsState::S5AgnssProcessing ==> final(agnss).current_index == 0
                && final(agnss).current_retry == 0 && final(agnss).message_timer_start == Some(
                now_ms,
            ) && final(agnss).previous_state == input.state,
            input.state == GpsState::S5AgnssProcessing && input.ack != AgnssAck::NoReply
                && r.next_state == GpsState::S5AgnssProcessing ==> final(agnss).current_index
                == next_index(*old(agnss)) && final(agnss).current_retry == 0
                && final(agnss).message_timer_start == Some(now_ms),
            r.next_state != GpsState::S5AgnssProcessing && input.state
                == GpsState::S5AgnssProcessing ==> final(agnss).queue@.len() == 0,
    {
        let mut actions: Vec<GpsAction> = Vec::new();
        let next = match input.state {
            GpsState::S0Initializing => {
                self.power_off_gps(&mut actions);
                self.reset_state_timers();
                self.is_first_fix_attempt_cycle = true;
                GpsState::S2IdleGpsOff
            },
            GpsState::S1GpsSearchingFix => self.step_searching(agnss, input, now_ms, &mut actions),
            GpsState::S2IdleGpsOff => self.step_idle(agnss, input, now_ms, &mut actions),
            GpsState::S3TrackingFixed => self.step_tracking(agnss, input, now_ms, &mut actions),
            GpsState::S4AnalyzingStillness => self.step_stillness(
                agnss,
                input,
                now_ms,
                &mut actions,
            ),
            GpsState::S5AgnssProcessing => self.step_agnss(agnss, input, now_ms, &mut actions),
        };
        StepOutput { next_state: next, actions }
    }
}

} // verus!
