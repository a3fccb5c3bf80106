//! The robot worker's state machine.
//!
//! Exactly one worker exists per process; it alone owns the serial link.
//! The driving loop around it performs each returned action (block on the
//! task queue, stream one stroke and await the acknowledgment, sleep, report
//! a failed task, shut down on a lost connection) and feeds the resulting
//! event back into `step`. All decisions — what to stream next, when a retry
//! budget is exhausted, whether a scheduled tick falls inside the configured
//! time window, when a fault is fatal — are made here.
//!
//! Policy, chosen deliberately: the queue is polled only in the `Waiting`
//! and `Sleeping` states, so a single drawing always streams to completion
//! (or failure) atomically, while a task arriving during a schedule's sleep
//! preempts the schedule — only one physical device exists and the newest
//! intent wins.

use crate::scaling::{line_wf, point_wf, Point, Polyline, COORD_LIMIT};
use crate::timelimits::{TimeLimits, TimeOfDay};
use vstd::prelude::*;

verus! {

/// Width of the board's drawable area, in fixed-point device units.
pub const IBB_WIDTH: i64 = 35800;

/// Height of the board's drawable area, in fixed-point device units.
pub const IBB_HEIGHT: i64 = 12300;

/// How many times one stroke is re-sent after an acknowledgment timeout
/// before the whole task is reported failed.
pub const MAX_RETRIES: u64 = 3;

/// Unit of work for the worker.
#[derive(Clone, PartialEq, Debug)]
pub enum PrintTask {
    /// Draw this drawing a single time, immediately.
    Once(Vec<Polyline>),
    /// Repeat forever: draw each drawing once, then wait this many seconds
    /// before repeating from the start, gated by the daily time window.
    Scheduled(u64, Vec<Vec<Polyline>>),
}

/// A repeating job and its cadence.
#[derive(Clone, PartialEq, Debug)]
pub struct ScheduleJob {
    /// Seconds between the start of one cycle and the next tick.
    pub interval_secs: u64,
    /// The drawings of one cycle, drawn in order.
    pub drawings: Vec<Vec<Polyline>>,
}

/// The worker's state between steps.
#[derive(Clone, PartialEq, Debug)]
pub enum WorkerState {
    /// Serial link open, blocked waiting for the next task.
    Waiting,
    /// Streaming a one-shot drawing; the stroke at `next_line` is in flight.
    DrawingOnce { lines: Vec<Polyline>, next_line: usize, retries: u64 },
    /// Streaming drawing `drawing_idx` of a scheduled job; the stroke at
    /// `next_line` of that drawing is in flight.
    DrawingScheduled { job: ScheduleJob, drawing_idx: usize, next_line: usize, retries: u64 },
    /// Between iterations of a scheduled job.
    Sleeping { job: ScheduleJob },
    /// The serial connection itself is gone. Terminal: the worker reports
    /// the loss and refuses all further work (no reconnection logic).
    Failed,
}

/// What the driving loop reports back to the machine.
pub enum WorkerEvent {
    /// The queue handed over a task (only polled in `Waiting` / `Sleeping`).
    TaskReceived(PrintTask),
    /// The device acknowledged the stroke in flight.
    AckReceived,
    /// The acknowledgment did not arrive within the per-command timeout.
    AckTimeout,
    /// The sleep ran out; the wall clock now reads this time of day.
    SleepElapsed(TimeOfDay),
    /// The serial connection itself is gone (not a mere acknowledgment
    /// timeout): writing or reading failed in a way no retry can mend.
    ConnectionLost,
}

/// What the driving loop must do next.
#[derive(Clone, Copy, PartialEq, Eq, Structural, Debug)]
pub enum WorkerAction {
    /// Block on the queue for the next task.
    Wait,
    /// Stream the stroke named by the state to the device, then report the
    /// acknowledgment or its timeout.
    SendLine,
    /// Sleep this many seconds, then report the time of day.
    Sleep(u64),
    /// Report the current task as failed, then block for the next task.
    TaskFailed,
    /// Report the lost connection as fatal and stop: the queue's receiving
    /// end goes away, so every further submission fails.
    Shutdown,
}

/// Whether drawing is allowed at `now`; no configured limits means always.
pub open spec fn spec_within_opt(limits: Option<TimeLimits>, now: TimeOfDay) -> bool {
    match limits {
        Option::None => true,
        Option::Some(l) => l.spec_within(now),
    }
}

/// Decide the time window, treating absent limits as unrestricted.
pub fn within_opt(limits: &Option<TimeLimits>, now: &TimeOfDay) -> (r: bool)
    requires
        (match *limits {
            Option::Some(l) => l.wf(),
            Option::None => true,
        }),
        now.wf(),
    ensures
        r == spec_within_opt(*limits, *now),
{
    match limits {
        Option::None => true,
        Option::Some(l) => l.is_within_limits(now),
    }
}

/// The indices of a drawing state name a real stroke, and the retry count
/// never exceeds the budget.
pub open spec fn state_wf(s: WorkerState) -> bool {
    match s {
        WorkerState::Waiting => true,
        WorkerState::DrawingOnce { lines, next_line, retries } => {
            next_line < lines@.len() && retries <= MAX_RETRIES
        },
        WorkerState::DrawingScheduled { job, drawing_idx, next_line, retries } => {
            &&& drawing_idx < job.drawings@.len()
            &&& next_line < job.drawings@[drawing_idx as int]@.len()
            &&& retries <= MAX_RETRIES
        },
        WorkerState::Sleeping { job } => true,
        WorkerState::Failed => true,
    }
}

/// Enter the cycle of a scheduled job at drawing `k`, skipping drawings with
/// no strokes; when none remain, sleep out the interval.
pub open spec fn spec_advance_cycle(job: ScheduleJob, k: int) -> (WorkerState, WorkerAction)
    decreases job.drawings@.len() - k,
    when 0 <= k <= job.drawings@.len()
{
    if k >= job.drawings@.len() {
        (WorkerState::Sleeping { job }, WorkerAction::Sleep(job.interval_secs))
    } else if job.drawings@[k]@.len() > 0 {
        (
            WorkerState::DrawingScheduled {
                job,
                drawing_idx: k as usize,
                next_line: 0,
                retries: 0,
            },
            WorkerAction::SendLine,
        )
    } else {
        spec_advance_cycle(job, k + 1)
    }
}

/// What a freshly received task puts in motion: a one-shot drawing streams
/// immediately (an empty one is already done), a scheduled job draws its
/// first cycle immediately.
pub open spec fn spec_start_task(t: PrintTask) -> (WorkerState, WorkerAction) {
    match t {
        PrintTask::Once(lines) => {
            if lines@.len() > 0 {
                (
                    WorkerState::DrawingOnce { lines, next_line: 0, retries: 0 },
                    WorkerAction::SendLine,
                )
            } else {
                (WorkerState::Waiting, WorkerAction::Wait)
            }
        },
        PrintTask::Scheduled(interval_secs, drawings) => {
            spec_advance_cycle(ScheduleJob { interval_secs, drawings }, 0)
        },
    }
}

/// The transition relation of the worker. Strokes of a drawing are streamed
/// in order, each awaiting its acknowledgment; a timeout re-sends the same
/// stroke until the retry budget is exhausted, which fails the task and
/// returns the worker to `Waiting`. A completed scheduled cycle sleeps one
/// interval; a wake outside the time window sleeps one more interval without
/// drawing; a task arriving while sleeping preempts the schedule. A lost
/// connection is fatal from every state: the worker moves to the terminal
/// `Failed` state and shuts down. Events that the driving loop cannot
/// produce in a state leave it undisturbed.
pub open spec fn spec_step(s: WorkerState, e: WorkerEvent, limits: Option<TimeLimits>) -> (
    WorkerState,
    WorkerAction,
) {
    match s {
        WorkerState::Waiting => match e {
            WorkerEvent::TaskReceived(t) => spec_start_task(t),
            WorkerEvent::ConnectionLost => (WorkerState::Failed, WorkerAction::Shutdown),
            _ => (WorkerState::Waiting, WorkerAction::Wait),
        },
        WorkerState::DrawingOnce { lines, next_line, retries } => match e {
            WorkerEvent::AckReceived => {
                if next_line + 1 < lines@.len() {
                    (
                        WorkerState::DrawingOnce {
                            lines,
                            next_line: (next_line + 1) as usize,
                            retries: 0,
                        },
                        WorkerAction::SendLine,
                    )
                } else {
                    (WorkerState::Waiting, WorkerAction::Wait)
                }
            },
            WorkerEvent::AckTimeout => {
                if retries < MAX_RETRIES {
                    (
                        WorkerState::DrawingOnce {
                            lines,
                            next_line,
                            retries: (retries + 1) as u64,
                        },
                        WorkerAction::SendLine,
                    )
                } else {
                    (WorkerState::Waiting, WorkerAction::TaskFailed)
                }
            },
            WorkerEvent::ConnectionLost => (WorkerState::Failed, WorkerAction::Shutdown),
            _ => (
                WorkerState::DrawingOnce { lines, next_line, retries },
                WorkerAction::SendLine,
            ),
        },
        WorkerState::DrawingScheduled { job, drawing_idx, next_line, retries } => match e {
            WorkerEvent::AckReceived => {
                if next_line + 1 < job.drawings@[drawing_idx as int]@.len() {
                    (
                        WorkerState::DrawingScheduled {
                            job,
                            drawing_idx,
                            next_line: (next_line + 1) as usize,
                            retries: 0,
                        },
                        WorkerAction::SendLine,
                    )
                } else {
                    spec_advance_cycle(job, drawing_idx + 1)
                }
            },
            WorkerEvent::AckTimeout => {
                if retries < MAX_RETRIES {
                    (
                        WorkerState::DrawingScheduled {
                            job,
                            drawing_idx,
                            next_line,
                            retries: (retries + 1) as u64,
                        },
                        WorkerAction::SendLine,
                    )
                } else {
                    (WorkerState::Waiting, WorkerAction::TaskFailed)
                }
            },
            WorkerEvent::ConnectionLost => (WorkerState::Failed, WorkerAction::Shutdown),
            _ => (
                WorkerState::DrawingScheduled { job, drawing_idx, next_line, retries },
                WorkerAction::SendLine,
            ),
        },
        WorkerState::Sleeping { job } => match e {
            WorkerEvent::SleepElapsed(now) => {
                if spec_within_opt(limits, now) {
                    spec_advance_cycle(job, 0)
                } else {
                    (WorkerState::Sleeping { job }, WorkerAction::Sleep(job.interval_secs))
                }
            },
            WorkerEvent::TaskReceived(t) => spec_start_task(t),
            WorkerEvent::ConnectionLost => (WorkerState::Failed, WorkerAction::Shutdown),
            _ => (WorkerState::Sleeping { job }, WorkerAction::Sleep(job.interval_secs)),
        },
        WorkerState::Failed => (WorkerState::Failed, WorkerAction::Shutdown),
    }
}

/// Everything `spec_advance_cycle` can produce: a well-formed state of the
/// same job with a zeroed retry count, and either the first nonempty drawing
/// at or after `k` in flight, or one interval of sleep.
proof fn lemma_advance_cycle_props(job: ScheduleJob, k: int)
    requires
        0 <= k <= job.drawings@.len(),
    ensures
        ({
            let (st, act) = spec_advance_cycle(job, k);
            &&& state_wf(st)
            &&& (act matches WorkerAction::Sleep(d) ==> (st == (WorkerState::Sleeping { job })
                && d == job.interval_secs))
            &&& (act is SendLine ==> (st matches WorkerState::DrawingScheduled {
                job: j,
                drawing_idx,
                next_line,
                retries,
            } && j == job && k <= drawing_idx && next_line == 0 && retries == 0))
            &&& (act is SendLine || act is Sleep)
        }),
    decreases job.drawings@.len() - k,
{
    if k >= job.drawings@.len() {
        assert(spec_advance_cycle(job, k).0 == (WorkerState::Sleeping { job }));
        assert(spec_advance_cycle(job, k).1 == WorkerAction::Sleep(job.interval_secs));
    } else if job.drawings@[k]@.len() > 0 {
        assert(job.drawings.len() == job.drawings@.len());
        assert(spec_advance_cycle(job, k).1 is SendLine);
        assert(state_wf(spec_advance_cycle(job, k).0));
    } else {
        lemma_advance_cycle_props(job, k + 1);
        assert(spec_advance_cycle(job, k) == spec_advance_cycle(job, k + 1));
    }
}

/// Whenever the machine asks for a stroke to be streamed, its new state is a
/// drawing state, so the stroke to stream exists.
pub proof fn lemma_send_line_means_drawing(s: WorkerState, e: WorkerEvent, limits: Option<TimeLimits>)
    requires
        state_wf(s),
    ensures
        spec_step(s, e, limits).1 is SendLine ==> is_drawing(spec_step(s, e, limits).0),
{
    match s {
        WorkerState::Waiting => {
            if let WorkerEvent::TaskReceived(t) = e {
                lemma_start_task_send_line(t);
            }
        },
        WorkerState::DrawingOnce { .. } => {},
        WorkerState::DrawingScheduled { job, drawing_idx, next_line, retries } => {
            if e is AckReceived && !(next_line + 1 < job.drawings@[drawing_idx as int]@.len()) {
                lemma_advance_cycle_props(job, drawing_idx + 1);
            }
        },
        WorkerState::Sleeping { job } => match e {
            WorkerEvent::SleepElapsed(now) => {
                if spec_within_opt(limits, now) {
                    lemma_advance_cycle_props(job, 0);
                }
            },
            WorkerEvent::TaskReceived(t) => {
                lemma_start_task_send_line(t);
            },
            _ => {},
        },
        WorkerState::Failed => {},
    }
}

/// Starting a task asks for a stroke only from a drawing state.
proof fn lemma_start_task_send_line(t: PrintTask)
    ensures
        spec_start_task(t).1 is SendLine ==> is_drawing(spec_start_task(t).0),
{
    if let PrintTask::Scheduled(interval_secs, drawings) = t {
        lemma_advance_cycle_props(ScheduleJob { interval_secs, drawings }, 0);
    }
}

/// `step` preserves the state invariant, whatever the event.
pub proof fn lemma_step_preserves_wf(s: WorkerState, e: WorkerEvent, limits: Option<TimeLimits>)
    requires
        state_wf(s),
    ensures
        state_wf(spec_step(s, e, limits).0),
{
    match s {
        WorkerState::Waiting => {
            if let WorkerEvent::TaskReceived(t) = e {
                lemma_start_task_wf(t);
            }
        },
        WorkerState::DrawingOnce { lines, .. } => {
            assert(lines.len() == lines@.len());
        },
        WorkerState::DrawingScheduled { job, drawing_idx, next_line, retries } => {
            assert(job.drawings.len() == job.drawings@.len());
            assert(job.drawings@[drawing_idx as int].len() == job.drawings@[
                drawing_idx as int
            ]@.len());
            if e is AckReceived && !(next_line + 1 < job.drawings@[drawing_idx as int]@.len()) {
                lemma_advance_cycle_props(job, drawing_idx + 1);
            }
        },
        WorkerState::Sleeping { job } => match e {
            WorkerEvent::SleepElapsed(now) => {
                if spec_within_opt(limits, now) {
                    lemma_advance_cycle_props(job, 0);
                }
            },
            WorkerEvent::TaskReceived(t) => {
                lemma_start_task_wf(t);
            },
            _ => {},
        },
        WorkerState::Failed => {},
    }
}

/// Starting any task yields a well-formed state.
proof fn lemma_start_task_wf(t: PrintTask)
    ensures
        state_wf(spec_start_task(t).0),
{
    if let PrintTask::Scheduled(interval_secs, drawings) = t {
        lemma_advance_cycle_props(ScheduleJob { interval_secs, drawings }, 0);
    }
}

/// Executable form of `spec_advance_cycle`.
fn advance_cycle(job: ScheduleJob, start: usize) -> (r: (WorkerState, WorkerAction))
    requires
        start <= job.drawings@.len(),
    ensures
        r == spec_advance_cycle(job, start as int),
        state_wf(r.0),
{
    proof {
        lemma_advance_cycle_props(job, start as int);
    }
    let n = job.drawings.len();
    let mut k = start;
    while k < n
        invariant
            start <= k <= n,
            n == job.drawings@.len(),
            spec_advance_cycle(job, start as int) == spec_advance_cycle(job, k as int),
        decreases n - k,
    {
        if job.drawings[k].len() > 0 {
            return (
                WorkerState::DrawingScheduled { job, drawing_idx: k, next_line: 0, retries: 0 },
                WorkerAction::SendLine,
            );
        }
        k = k + 1;
    }
    let d = job.interval_secs;
    (WorkerState::Sleeping { job }, WorkerAction::Sleep(d))
}

/// One step of the worker: from the current state and the event the driving
/// loop observed, decide the next state and the next action.
pub fn step(state: WorkerState, event: WorkerEvent, limits: &Option<TimeLimits>) -> (r: (
    WorkerState,
    WorkerAction,
))
    requires
        state_wf(state),
        (match *limits {
            Option::Some(l) => l.wf(),
            Option::None => true,
        }),
        (match event {
            WorkerEvent::SleepElapsed(now) => now.wf(),
            _ => true,
        }),
    ensures
        r == spec_step(state, event, *limits),
        state_wf(r.0),
        r.1 is SendLine ==> is_drawing(r.0),
{
    proof {
        lemma_step_preserves_wf(state, event, *limits);
        lemma_send_line_means_drawing(state, event, *limits);
    }
    match state {
        WorkerState::Waiting => match event {
            WorkerEvent::TaskReceived(t) => start_task(t),
            WorkerEvent::ConnectionLost => (WorkerState::Failed, WorkerAction::Shutdown),
            _ => (WorkerState::Waiting, WorkerAction::Wait),
        },
        WorkerState::DrawingOnce { lines, next_line, retries } => match event {
            WorkerEvent::AckReceived => {
                let len = lines.len();
                if next_line + 1 < len {
                    (
                        WorkerState::DrawingOnce { lines, next_line: next_line + 1, retries: 0 },
                        WorkerAction::SendLine,
                    )
                } else {
                    (WorkerState::Waiting, WorkerAction::Wait)
                }
            },
            WorkerEvent::AckTimeout => {
                if retries < MAX_RETRIES {
                    (
                        WorkerState::DrawingOnce { lines, next_line, retries: retries + 1 },
                        WorkerAction::SendLine,
                    )
                } else {
                    (WorkerState::Waiting, WorkerAction::TaskFailed)
                }
            },
            WorkerEvent::ConnectionLost => (WorkerState::Failed, WorkerAction::Shutdown),
            _ => (
                WorkerState::DrawingOnce { lines, next_line, retries },
                WorkerAction::SendLine,
            ),
        },
        WorkerState::DrawingScheduled { job, drawing_idx, next_line, retries } => match event {
            WorkerEvent::AckReceived => {
                let n = job.drawings.len();
                let dlen = job.drawings[drawing_idx].len();
                if next_line + 1 < dlen {
                    (
                        WorkerState::DrawingScheduled {
                            job,
                            drawing_idx,
                            next_line: next_line + 1,
                            retries: 0,
                        },
                        WorkerAction::SendLine,
                    )
                } else {
                    advance_cycle(job, drawing_idx + 1)
                }
            },
            WorkerEvent::AckTimeout => {
                if retries < MAX_RETRIES {
                    (
                        WorkerState::DrawingScheduled {
                            job,
                            drawing_idx,
                            next_line,
                            retries: retries + 1,
                        },
                        WorkerAction::SendLine,
                    )
                } else {
                    (WorkerState::Waiting, WorkerAction::TaskFailed)
                }
            },
            WorkerEvent::ConnectionLost => (WorkerState::Failed, WorkerAction::Shutdown),
            _ => (
                WorkerState::DrawingScheduled { job, drawing_idx, next_line, retries },
                WorkerAction::SendLine,
            ),
        },
        WorkerState::Sleeping { job } => match event {
            WorkerEvent::SleepElapsed(now) => {
                if within_opt(limits, &now) {
                    advance_cycle(job, 0)
                } else {
                    let d = job.interval_secs;
                    (WorkerState::Sleeping { job }, WorkerAction::Sleep(d))
                }
            },
            WorkerEvent::TaskReceived(t) => start_task(t),
            WorkerEvent::ConnectionLost => (WorkerState::Failed, WorkerAction::Shutdown),
            _ => {
                let d = job.interval_secs;
                (WorkerState::Sleeping { job }, WorkerAction::Sleep(d))
            },
        },
        WorkerState::Failed => (WorkerState::Failed, WorkerAction::Shutdown),
    }
}

/// Executable form of `spec_start_task`.
fn start_task(t: PrintTask) -> (r: (WorkerState, WorkerAction))
    ensures
        r == spec_start_task(t),
        state_wf(r.0),
{
    proof {
        lemma_start_task_wf(t);
    }
    match t {
        PrintTask::Once(lines) => {
            if lines.len() > 0 {
                (
                    WorkerState::DrawingOnce { lines, next_line: 0, retries: 0 },
                    WorkerAction::SendLine,
                )
            } else {
                (WorkerState::Waiting, WorkerAction::Wait)
            }
        },
        PrintTask::Scheduled(interval_secs, drawings) => {
            advance_cycle(ScheduleJob { interval_secs, drawings }, 0)
        },
    }
}

/// The run of the machine over a sequence of events.
pub open spec fn run_state(
    s: WorkerState,
    es: Seq<WorkerEvent>,
    limits: Option<TimeLimits>,
) -> WorkerState
    decreases es.len(),
{
    if es.len() == 0 {
        s
    } else {
        run_state(spec_step(s, es[0], limits).0, es.drop_first(), limits)
    }
}

/// A stroke is in flight.
pub open spec fn is_drawing(s: WorkerState) -> bool {
    s is DrawingOnce || s is DrawingScheduled
}

/// The retry budget already spent on the stroke in flight.
pub open spec fn drawing_retries(s: WorkerState) -> u64 {
    match s {
        WorkerState::DrawingOnce { retries, .. } => retries,
        WorkerState::DrawingScheduled { retries, .. } => retries,
        _ => 0,
    }
}

/// The stroke in flight, in a drawing state.
pub open spec fn spec_current_line(s: WorkerState) -> Polyline
    recommends
        is_drawing(s),
{
    match s {
        WorkerState::DrawingOnce { lines, next_line, .. } => lines@[next_line as int],
        WorkerState::DrawingScheduled { job, drawing_idx, next_line, .. } => {
            job.drawings@[drawing_idx as int]@[next_line as int]
        },
        _ => arbitrary(),
    }
}

/// The stroke the machine has put in flight: present exactly in the drawing
/// states, where the state invariant keeps its indices valid.
pub fn current_line(state: &WorkerState) -> (r: Option<&Polyline>)
    requires
        state_wf(*state),
    ensures
        r is Some <==> is_drawing(*state),
        r matches Some(l) ==> *l == spec_current_line(*state),
{
    match state {
        WorkerState::DrawingOnce { lines, next_line, .. } => Some(&lines[*next_line]),
        WorkerState::DrawingScheduled { job, drawing_idx, next_line, .. } => {
            Some(&job.drawings[*drawing_idx][*next_line])
        },
        _ => None,
    }
}

/// A tick that falls outside the time window is skipped, not cancelled: the
/// worker draws nothing and sleeps exactly one more interval, with the
/// schedule unchanged — skipping neither advances nor delays the cadence
/// beyond normal interval arithmetic.
pub proof fn lemma_skipped_tick_keeps_cadence(
    job: ScheduleJob,
    now: TimeOfDay,
    limits: Option<TimeLimits>,
)
    requires
        !spec_within_opt(limits, now),
    ensures
        spec_step(WorkerState::Sleeping { job }, WorkerEvent::SleepElapsed(now), limits) == (
            WorkerState::Sleeping { job },
            WorkerAction::Sleep(job.interval_secs),
        ),
{
}

/// A tick inside the window starts exactly one pass over the cycle: the wake
/// puts the first stroke of the cycle's first nonempty drawing in flight (a
/// cycle with no strokes at all just sleeps one interval again).
pub proof fn lemma_tick_starts_cycle(job: ScheduleJob, now: TimeOfDay, limits: Option<TimeLimits>)
    requires
        spec_within_opt(limits, now),
    ensures
        spec_step(WorkerState::Sleeping { job }, WorkerEvent::SleepElapsed(now), limits)
            == spec_advance_cycle(job, 0),
        ({
            let (st, act) = spec_advance_cycle(job, 0);
            &&& state_wf(st)
            &&& (act is SendLine || act is Sleep)
            &&& (act matches WorkerAction::Sleep(d) ==> d == job.interval_secs)
        }),
{
    lemma_advance_cycle_props(job, 0);
}

proof fn lemma_advance_cycle_all_empty(job: ScheduleJob, k: int)
    requires
        0 <= k <= job.drawings@.len(),
        forall|t: int| k <= t < job.drawings@.len() ==> (#[trigger] job.drawings@[t])@.len() == 0,
    ensures
        spec_advance_cycle(job, k) == (
            WorkerState::Sleeping { job },
            WorkerAction::Sleep(job.interval_secs),
        ),
    decreases job.drawings@.len() - k,
{
    if k < job.drawings@.len() {
        lemma_advance_cycle_all_empty(job, k + 1);
    }
}

/// Acknowledging the last stroke of the last nonempty drawing of a cycle
/// puts the worker to sleep for exactly the configured interval: one full
/// pass over the drawings per tick, and the next tick exactly one interval
/// after this one.
pub proof fn lemma_cycle_completion_sleeps_interval(
    job: ScheduleJob,
    drawing_idx: usize,
    next_line: usize,
    retries: u64,
    limits: Option<TimeLimits>,
)
    requires
        state_wf(
            WorkerState::DrawingScheduled { job, drawing_idx, next_line, retries },
        ),
        next_line + 1 == job.drawings@[drawing_idx as int]@.len(),
        forall|t: int|
            drawing_idx < t < job.drawings@.len() ==> (#[trigger] job.drawings@[t])@.len() == 0,
    ensures
        spec_step(
            WorkerState::DrawingScheduled { job, drawing_idx, next_line, retries },
            WorkerEvent::AckReceived,
            limits,
        ) == (WorkerState::Sleeping { job }, WorkerAction::Sleep(job.interval_secs)),
{
    lemma_advance_cycle_all_empty(job, drawing_idx + 1);
}

/// Acknowledgment timeouts are absorbed a bounded number of times: from any
/// drawing state, after `MAX_RETRIES - retries` consecutive timeouts the
/// worker still holds the same stroke with the budget exhausted, and one
/// more timeout reports the task failed and returns the worker to `Waiting`,
/// able to accept the next task.
pub proof fn lemma_timeouts_bounded(s: WorkerState, limits: Option<TimeLimits>)
    requires
        state_wf(s),
        is_drawing(s),
    ensures
        ({
            let k = MAX_RETRIES - drawing_retries(s);
            let mid = run_state(s, Seq::new(k as nat, |i: int| WorkerEvent::AckTimeout), limits);
            &&& is_drawing(mid)
            &&& state_wf(mid)
            &&& drawing_retries(mid) == MAX_RETRIES
            &&& spec_step(mid, WorkerEvent::AckTimeout, limits) == (
                WorkerState::Waiting,
                WorkerAction::TaskFailed,
            )
        }),
    decreases MAX_RETRIES - drawing_retries(s),
{
    let k = MAX_RETRIES - drawing_retries(s);
    let es = Seq::new(k as nat, |i: int| WorkerEvent::AckTimeout);
    if k == 0 {
        assert(run_state(s, es, limits) == s);
    } else {
        let s2 = spec_step(s, WorkerEvent::AckTimeout, limits).0;
        assert(is_drawing(s2) && state_wf(s2) && drawing_retries(s2) == drawing_retries(s) + 1);
        lemma_timeouts_bounded(s2, limits);
        let es2 = Seq::new((k - 1) as nat, |i: int| WorkerEvent::AckTimeout);
        assert(es.drop_first() =~= es2);
        assert(run_state(s, es, limits) == run_state(s2, es2, limits));
    }
}

/// From `Waiting`, the very next task event starts that task: a failure
/// leaves the worker able to accept new work at once.
pub proof fn lemma_waiting_accepts_next_task(t: PrintTask, limits: Option<TimeLimits>)
    ensures
        spec_step(WorkerState::Waiting, WorkerEvent::TaskReceived(t), limits) == spec_start_task(
            t,
        ),
{
}

/// A lost serial connection is fatal: from every state it moves the worker
/// to the terminal `Failed` state with the shutdown report, and no event
/// leads out of `Failed` — the worker refuses all further work.
pub proof fn lemma_connection_loss_is_fatal(
    s: WorkerState,
    e: WorkerEvent,
    limits: Option<TimeLimits>,
)
    ensures
        spec_step(s, WorkerEvent::ConnectionLost, limits) == (
            WorkerState::Failed,
            WorkerAction::Shutdown,
        ),
        spec_step(WorkerState::Failed, e, limits) == (
            WorkerState::Failed,
            WorkerAction::Shutdown,
        ),
{
}

/// The decimal digits of a nonnegative value, most significant first.
pub open spec fn spec_decimal_nat(n: nat) -> Seq<u8>
    decreases n,
{
    if n < 10 {
        seq![(48 + n) as u8]
    } else {
        spec_decimal_nat(n / 10).push((48 + n % 10) as u8)
    }
}

/// The decimal rendering of a coordinate, with a minus sign when negative.
pub open spec fn spec_decimal(v: int) -> Seq<u8> {
    if v < 0 {
        seq![45u8] + spec_decimal_nat((-v) as nat)
    } else {
        spec_decimal_nat(v as nat)
    }
}

/// One point of a command: `x,y;`.
pub open spec fn spec_frame_point(p: Point) -> Seq<u8> {
    spec_decimal(p.x as int) + seq![44u8] + spec_decimal(p.y as int) + seq![59u8]
}

/// The points of a stroke, framed in order.
pub open spec fn spec_frame_points(l: Seq<Point>) -> Seq<u8>
    decreases l.len(),
{
    if l.len() == 0 {
        Seq::empty()
    } else {
        spec_frame_points(l.drop_last()) + spec_frame_point(l.last())
    }
}

/// One stroke as a device command: each point rendered `x,y;`, the command
/// closed by a newline.
pub open spec fn spec_frame_line(l: Seq<Point>) -> Seq<u8> {
    spec_frame_points(l) + seq![10u8]
}

/// Append the decimal digits of `n`.
fn push_decimal_nat(out: &mut Vec<u8>, n: u64)
    ensures
        final(out)@ == old(out)@ + spec_decimal_nat(n as nat),
    decreases n,
{
    if n >= 10 {
        proof {
            assert(n as nat / 10 < n as nat) by (nonlinear_arith)
                requires n >= 10;
        }
        push_decimal_nat(out, n / 10);
    }
    out.push(48 + (n % 10) as u8);
    proof {
        assert(final(out)@ =~= old(out)@ + spec_decimal_nat(n as nat));
    }
}

/// Append the decimal rendering of `v`.
fn push_decimal(out: &mut Vec<u8>, v: i64)
    requires
        -COORD_LIMIT <= v <= COORD_LIMIT,
    ensures
        final(out)@ == old(out)@ + spec_decimal(v as int),
{
    if v < 0 {
        out.push(45u8);
        push_decimal_nat(out, (-v) as u64);
    } else {
        push_decimal_nat(out, v as u64);
    }
    proof {
        assert(final(out)@ =~= old(out)@ + spec_decimal(v as int));
    }
}

/// Frame one stroke for the device: the exact bytes of `spec_frame_line`.
pub fn frame_polyline(line: &Polyline) -> (r: Vec<u8>)
    requires
        line_wf(line@),
    ensures
        r@ == spec_frame_line(line@),
{
    let mut out: Vec<u8> = Vec::new();
    let n = line.len();
    let mut i: usize = 0;
    proof {
        assert(line@.take(0) =~= Seq::<Point>::empty());
    }
    while i < n
        invariant
            n == line@.len(),
            i <= n,
            line_wf(line@),
            out@ == spec_frame_points(line@.take(i as int)),
        decreases n - i,
    {
        let p = line[i];
        proof {
            assert(point_wf(line@[i as int]));
        }
        push_decimal(&mut out, p.x);
        out.push(44u8);
        push_decimal(&mut out, p.y);
        out.push(59u8);
        proof {
            assert(line@.take(i as int + 1).drop_last() =~= line@.take(i as int));
            assert(line@.take(i as int + 1).last() == line@[i as int]);
            assert(out@ =~= spec_frame_points(line@.take(i as int + 1)));
        }
        i = i + 1;
    }
    out.push(10u8);
    proof {
        assert(line@.take(n as int) =~= line@);
        assert(out@ =~= spec_frame_line(line@));
    }
    out
}

} // verus!
