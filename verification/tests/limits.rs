use iboardbot_web::timelimits::{parse_hhmm, TimeLimits, TimeOfDay};

fn t(h: u8, m: u8) -> TimeOfDay {
    TimeOfDay::new(h, m).unwrap()
}

#[test]
fn time_limits_simple() {
    let limits = TimeLimits {
        start_time: t(8, 00),
        end_time: t(12, 30),
    };

    let tm_before = t(7, 59);
    let tm_on = t(8, 00);
    let tm_within1 = t(9, 30);
    let tm_within2 = t(12, 28);
    let tm_after = t(12, 32);

    assert_eq!(limits.is_within_limits(&tm_before), false);
    assert_eq!(limits.is_within_limits(&tm_on), true);
    assert_eq!(limits.is_within_limits(&tm_within1), true);
    assert_eq!(limits.is_within_limits(&tm_within2), true);
    assert_eq!(limits.is_within_limits(&tm_after), false);
}

#[test]
fn time_limits_complex() {
    let limits = TimeLimits {
        start_time: t(22, 00),
        end_time: t(2, 30),
    };

    let tm_before = t(21, 00);
    let tm_on1 = t(22, 00);
    let tm_on2 = t(2, 30);
    let tm_within1 = t(23, 30);
    let tm_within2 = t(0, 00);
    let tm_within3 = t(1, 59);
    let tm_after = t(3, 00);

    assert_eq!(limits.is_within_limits(&tm_before), false);
    assert_eq!(limits.is_within_limits(&tm_on1), true);
    assert_eq!(limits.is_within_limits(&tm_on2), true);
    assert_eq!(limits.is_within_limits(&tm_within1), true);
    assert_eq!(limits.is_within_limits(&tm_within2), true);
    assert_eq!(limits.is_within_limits(&tm_within3), true);
    assert_eq!(limits.is_within_limits(&tm_after), false);
}

#[test]
fn time_of_day_rejects_invalid() {
    assert!(TimeOfDay::new(24, 0).is_none());
    assert!(TimeOfDay::new(0, 60).is_none());
    assert!(TimeOfDay::new(23, 59).is_some());
}

#[test]
fn parse_hhmm_valid() {
    assert_eq!(parse_hhmm("08:00"), Some(t(8, 0)));
    assert_eq!(parse_hhmm("23:59"), Some(t(23, 59)));
    assert_eq!(parse_hhmm("00:00"), Some(t(0, 0)));
}

#[test]
fn parse_hhmm_invalid() {
    assert_eq!(parse_hhmm("24:00"), None);
    assert_eq!(parse_hhmm("12:60"), None);
    assert_eq!(parse_hhmm("8:00"), None);
    assert_eq!(parse_hhmm("ab:cd"), None);
    assert_eq!(parse_hhmm("12-30"), None);
    assert_eq!(parse_hhmm(""), None);
}

#[test]
fn describe_formats_window() {
    let limits = TimeLimits {
        start_time: t(8, 5),
        end_time: t(12, 30),
    };
    assert_eq!(limits.describe(), "08:05\u{2013}12:30".as_bytes().to_vec());
}
