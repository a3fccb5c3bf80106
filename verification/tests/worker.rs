use iboardbot_web::robot::{
    current_line, frame_polyline, step, within_opt, PrintTask, WorkerAction, WorkerEvent,
    WorkerState, MAX_RETRIES,
};
use iboardbot_web::scaling::{Point, Polyline};
use iboardbot_web::timelimits::{TimeLimits, TimeOfDay};

fn line() -> Polyline {
    vec![Point { x: 0, y: 0 }, Point { x: 10, y: 10 }]
}

fn t(h: u8, m: u8) -> TimeOfDay {
    TimeOfDay::new(h, m).unwrap()
}

fn night_window() -> Option<TimeLimits> {
    Some(TimeLimits {
        start_time: t(22, 0),
        end_time: t(2, 30),
    })
}

#[test]
fn once_task_streams_then_waits() {
    let task = PrintTask::Once(vec![line(), line()]);
    let (s, a) = step(WorkerState::Waiting, WorkerEvent::TaskReceived(task), &None);
    assert_eq!(a, WorkerAction::SendLine);
    assert!(matches!(
        s,
        WorkerState::DrawingOnce { next_line: 0, retries: 0, .. }
    ));

    let (s, a) = step(s, WorkerEvent::AckReceived, &None);
    assert_eq!(a, WorkerAction::SendLine);
    assert!(matches!(
        s,
        WorkerState::DrawingOnce { next_line: 1, retries: 0, .. }
    ));

    let (s, a) = step(s, WorkerEvent::AckReceived, &None);
    assert_eq!(a, WorkerAction::Wait);
    assert_eq!(s, WorkerState::Waiting);
}

#[test]
fn empty_once_task_is_already_done() {
    let task = PrintTask::Once(vec![]);
    let (s, a) = step(WorkerState::Waiting, WorkerEvent::TaskReceived(task), &None);
    assert_eq!(s, WorkerState::Waiting);
    assert_eq!(a, WorkerAction::Wait);
}

#[test]
fn timeouts_are_bounded_then_task_fails() {
    let task = PrintTask::Once(vec![line()]);
    let (mut s, _) = step(WorkerState::Waiting, WorkerEvent::TaskReceived(task), &None);
    for expected_retries in 1..=MAX_RETRIES {
        let (s2, a) = step(s, WorkerEvent::AckTimeout, &None);
        assert_eq!(a, WorkerAction::SendLine);
        match &s2 {
            WorkerState::DrawingOnce { retries, .. } => assert_eq!(*retries, expected_retries),
            other => panic!("state was {:?}", other),
        }
        s = s2;
    }
    // the budget is exhausted: one more timeout fails the task and the
    // worker accepts new work again
    let (s, a) = step(s, WorkerEvent::AckTimeout, &None);
    assert_eq!(a, WorkerAction::TaskFailed);
    assert_eq!(s, WorkerState::Waiting);

    let (s, a) = step(
        s,
        WorkerEvent::TaskReceived(PrintTask::Once(vec![line()])),
        &None,
    );
    assert_eq!(a, WorkerAction::SendLine);
    assert!(matches!(s, WorkerState::DrawingOnce { .. }));
}

#[test]
fn scheduled_task_keeps_cadence() {
    let limits = night_window();
    let task = PrintTask::Scheduled(300, vec![vec![line()]]);
    let (s, a) = step(WorkerState::Waiting, WorkerEvent::TaskReceived(task), &limits);
    assert_eq!(a, WorkerAction::SendLine);
    assert!(matches!(
        s,
        WorkerState::DrawingScheduled { drawing_idx: 0, next_line: 0, .. }
    ));

    // cycle complete: sleep exactly one interval
    let (s, a) = step(s, WorkerEvent::AckReceived, &limits);
    assert_eq!(a, WorkerAction::Sleep(300));
    assert!(matches!(s, WorkerState::Sleeping { .. }));

    // a tick outside the window is skipped: sleep one more interval
    let (s, a) = step(s, WorkerEvent::SleepElapsed(t(21, 0)), &limits);
    assert_eq!(a, WorkerAction::Sleep(300));
    assert!(matches!(s, WorkerState::Sleeping { .. }));

    // a tick inside the window draws the cycle again
    let (s, a) = step(s, WorkerEvent::SleepElapsed(t(23, 30)), &limits);
    assert_eq!(a, WorkerAction::SendLine);
    assert!(matches!(
        s,
        WorkerState::DrawingScheduled { drawing_idx: 0, next_line: 0, .. }
    ));
}

#[test]
fn scheduled_cycle_skips_empty_drawings() {
    let task = PrintTask::Scheduled(60, vec![vec![], vec![line()], vec![]]);
    let (s, a) = step(WorkerState::Waiting, WorkerEvent::TaskReceived(task), &None);
    assert_eq!(a, WorkerAction::SendLine);
    assert!(matches!(
        s,
        WorkerState::DrawingScheduled { drawing_idx: 1, next_line: 0, .. }
    ));

    let (s, a) = step(s, WorkerEvent::AckReceived, &None);
    assert_eq!(a, WorkerAction::Sleep(60));
    assert!(matches!(s, WorkerState::Sleeping { .. }));
}

#[test]
fn new_task_preempts_sleeping_schedule() {
    let task = PrintTask::Scheduled(300, vec![vec![line()]]);
    let (s, _) = step(WorkerState::Waiting, WorkerEvent::TaskReceived(task), &None);
    let (s, _) = step(s, WorkerEvent::AckReceived, &None);
    assert!(matches!(s, WorkerState::Sleeping { .. }));

    let (s, a) = step(
        s,
        WorkerEvent::TaskReceived(PrintTask::Once(vec![line()])),
        &None,
    );
    assert_eq!(a, WorkerAction::SendLine);
    assert!(matches!(s, WorkerState::DrawingOnce { .. }));
}

#[test]
fn no_limits_means_always_within() {
    assert!(within_opt(&None, &t(3, 0)));
    assert!(!within_opt(&night_window(), &t(3, 0)));
    assert!(within_opt(&night_window(), &t(0, 0)));
}

#[test]
fn connection_loss_is_fatal_and_terminal() {
    let task = PrintTask::Once(vec![line()]);
    let (s, _) = step(WorkerState::Waiting, WorkerEvent::TaskReceived(task), &None);
    let (s, a) = step(s, WorkerEvent::ConnectionLost, &None);
    assert_eq!(s, WorkerState::Failed);
    assert_eq!(a, WorkerAction::Shutdown);

    // terminal: no event leads out, not even a fresh task
    let (s, a) = step(
        s,
        WorkerEvent::TaskReceived(PrintTask::Once(vec![line()])),
        &None,
    );
    assert_eq!(s, WorkerState::Failed);
    assert_eq!(a, WorkerAction::Shutdown);
    let (s, a) = step(s, WorkerEvent::AckReceived, &None);
    assert_eq!(s, WorkerState::Failed);
    assert_eq!(a, WorkerAction::Shutdown);
}

#[test]
fn current_line_names_the_stroke_in_flight() {
    let first = vec![Point { x: 1, y: 2 }];
    let second = vec![Point { x: 3, y: 4 }];
    let task = PrintTask::Once(vec![first.clone(), second.clone()]);
    let (s, _) = step(WorkerState::Waiting, WorkerEvent::TaskReceived(task), &None);
    assert_eq!(current_line(&s), Some(&first));
    let (s, _) = step(s, WorkerEvent::AckReceived, &None);
    assert_eq!(current_line(&s), Some(&second));
    let (s, _) = step(s, WorkerEvent::AckReceived, &None);
    assert_eq!(current_line(&s), None);
}

#[test]
fn frame_polyline_exact_bytes() {
    let line: Polyline = vec![Point { x: 10, y: -7 }, Point { x: 0, y: 3 }];
    assert_eq!(frame_polyline(&line), b"10,-7;0,3;\n".to_vec());
    let empty: Polyline = vec![];
    assert_eq!(frame_polyline(&empty), b"\n".to_vec());
}
