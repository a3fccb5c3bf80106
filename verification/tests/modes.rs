use iboardbot_web::printmode::PrintMode;
use iboardbot_web::robot::PrintTask;
use iboardbot_web::scaling::Polyline;

#[test]
fn print_mode_to_print_task_once() {
    let mode = PrintMode::Once;
    let polylines: Vec<Polyline> = vec![];
    match mode.to_print_task(polylines.clone()) {
        PrintTask::Once(p) => assert_eq!(p, polylines),
        t @ _ => panic!("Task was {:?}", t),
    }
}

#[test]
fn print_mode_to_print_task_every() {
    let mode = PrintMode::Schedule5;
    let polylines: Vec<Polyline> = vec![];
    match mode.to_print_task(polylines.clone()) {
        PrintTask::Scheduled(d, p) => {
            assert_eq!(d, 60 * 5);
            assert_eq!(p, vec![polylines]);
        }
        t @ _ => panic!("Task was {:?}", t),
    }
}

#[test]
fn print_mode_intervals() {
    let polylines: Vec<Polyline> = vec![];
    for (mode, secs) in [
        (PrintMode::Schedule15, 900u64),
        (PrintMode::Schedule30, 1800),
        (PrintMode::Schedule60, 3600),
    ] {
        match mode.to_print_task(polylines.clone()) {
            PrintTask::Scheduled(d, p) => {
                assert_eq!(d, secs);
                assert_eq!(p, vec![polylines.clone()]);
            }
            t @ _ => panic!("Task was {:?}", t),
        }
    }
}
