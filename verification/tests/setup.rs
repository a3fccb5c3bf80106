use iboardbot_web::config::{Config, ErrorDetails, JsonError, PreviewConfig, RawConfig};
use iboardbot_web::files::{filter_svg_files, sort_svg_files, str_lt};
use iboardbot_web::printmode::PrintMode;
use iboardbot_web::robot::PrintTask;
use iboardbot_web::scaling::{Point, Polyline, ScaleError, ScaleFactor};
use iboardbot_web::{headless_bounds, prepare_headless_task, prepare_print_task, HeadlessError};

fn p(x: i64, y: i64) -> Point {
    Point { x, y }
}

fn raw(device: bool) -> RawConfig {
    RawConfig {
        listen: None,
        device: if device { Some("/dev/ttyACM0".to_string()) } else { None },
        svg_dir: Some("drawings".to_string()),
        interval_seconds: Some(600),
        time_limits: None,
    }
}

#[test]
fn config_from_requires_device() {
    assert!(Config::from(raw(false)).is_none());
    let c = Config::from(raw(true)).unwrap();
    assert_eq!(c.listen, "127.0.0.1:8080");
    assert_eq!(c.device, "/dev/ttyACM0");
    assert_eq!(c.svg_dir, "drawings");
    assert_eq!(c.interval_seconds, 600);
}

#[test]
fn preview_config_always_succeeds() {
    let c = PreviewConfig::from(raw(false));
    assert_eq!(c.listen, "listen");
    let mut with_listen = raw(false);
    with_listen.listen = Some("0.0.0.0:9000".to_string());
    assert_eq!(PreviewConfig::from(with_listen).listen, "0.0.0.0:9000");
}

#[test]
fn error_details_wraps_message() {
    let e = ErrorDetails::from("robot thread is gone".to_string());
    assert_eq!(e.details, "robot thread is gone");
}

#[test]
fn filter_keeps_svg_names_in_order() {
    let names = vec![
        "b.svg".to_string(),
        "notes.txt".to_string(),
        "a.svg".to_string(),
        "svg".to_string(),
        "x.svg.bak".to_string(),
    ];
    assert_eq!(filter_svg_files(names), vec!["b.svg".to_string(), "a.svg".to_string()]);
}

#[test]
fn headless_task_fits_into_padded_area() {
    let drawing: Vec<Polyline> = vec![vec![p(0, 0), p(100, 50)]];
    let r = prepare_headless_task(vec![drawing], 600);
    match r {
        Ok(PrintTask::Scheduled(secs, ds)) => {
            assert_eq!(secs, 600);
            // padded area x 500..=35300, y 500..=11800; uniform factor
            // 11300/50 = 226, x margin (34800 - 22600) / 2 = 6100
            assert_eq!(ds, vec![vec![vec![p(6600, 500), p(29200, 11800)]]]);
        }
        other => panic!("Task was {:?}", other),
    }
}

#[test]
fn headless_task_needs_drawings() {
    let r = prepare_headless_task(vec![], 600);
    assert_eq!(r, Err(HeadlessError::NoFiles));
}

#[test]
fn headless_task_rejects_degenerate_drawing() {
    let good: Vec<Polyline> = vec![vec![p(0, 0), p(10, 10)]];
    let bad: Vec<Polyline> = vec![vec![p(5, 5)]];
    let r = prepare_headless_task(vec![good, bad], 600);
    assert_eq!(r, Err(HeadlessError::PolylineScale(ScaleError::DegenerateDrawing)));
}

#[test]
fn headless_bounds_are_padded_device_area() {
    let b = headless_bounds();
    assert_eq!((b.x.min, b.x.max), (500, 35300));
    assert_eq!((b.y.min, b.y.max), (500, 11800));
}

#[test]
fn print_task_places_drawing_before_wrapping() {
    let drawing: Vec<Polyline> = vec![vec![p(10, -7)]];
    let factors = (ScaleFactor { num: 3, den: 2 }, ScaleFactor { num: -1, den: 1 });
    match prepare_print_task(drawing.clone(), (3, 4), factors, &PrintMode::Once) {
        PrintTask::Once(placed) => assert_eq!(placed, vec![vec![p(18, 11)]]),
        t @ _ => panic!("Task was {:?}", t),
    }
    match prepare_print_task(drawing, (3, 4), factors, &PrintMode::Schedule15) {
        PrintTask::Scheduled(secs, ds) => {
            assert_eq!(secs, 900);
            assert_eq!(ds, vec![vec![vec![p(18, 11)]]]);
        }
        t @ _ => panic!("Task was {:?}", t),
    }
}

#[test]
fn sort_orders_names() {
    let names = vec![
        "c.svg".to_string(),
        "a.svg".to_string(),
        "ab.svg".to_string(),
        "a.svg".to_string(),
    ];
    let sorted = sort_svg_files(names);
    assert_eq!(
        sorted,
        vec![
            "a.svg".to_string(),
            "a.svg".to_string(),
            "ab.svg".to_string(),
            "c.svg".to_string(),
        ]
    );
    assert!(str_lt("a", "ab"));
    assert!(str_lt("ab", "b"));
    assert!(!str_lt("b", "ab"));
    assert!(!str_lt("a", "a"));
    assert!(str_lt("", "a"));
}

#[test]
fn json_error_sides() {
    let client = JsonError::ClientError(ErrorDetails::from("bad svg".to_string()));
    let server = JsonError::ServerError(ErrorDetails::from("robot gone".to_string()));
    assert!(client.is_client_error());
    assert!(!server.is_client_error());
    assert_eq!(client.details().details, "bad svg");
    assert_eq!(server.details().details, "robot gone");
}
