use otto::progress::{frame_line, gate_from, should_enable};
use std::time::Duration;

#[test]
fn gate_rules() {
    let none = |_: &str| None;
    let term = |k: &str| (k == "TERM").then(|| "xterm-256color".to_string());

    assert!(!should_enable(false, false, false, term));
    assert!(should_enable(true, false, false, term));
    assert!(!should_enable(true, true, false, term));
    assert!(!should_enable(true, false, true, term));
    assert!(!should_enable(true, false, false, none));

    for (var, value) in [("CI", "true"), ("NO_COLOR", "1"), ("OTTO_NO_PROGRESS", "1"), ("TERM", "dumb")] {
        let env = move |k: &str| {
            if k == var {
                Some(value.to_string())
            } else if k == "TERM" {
                Some("xterm-256color".to_string())
            } else {
                None
            }
        };
        assert!(!should_enable(true, false, false, env), "{var}={value} must disable the spinner");
    }

    let empty_ci = |k: &str| match k {
        "CI" => Some(String::new()),
        "TERM" => Some("xterm-256color".to_string()),
        _ => None,
    };
    assert!(should_enable(true, false, false, empty_ci));
}

#[test]
fn frame_never_exceeds_its_width() {
    let many: Vec<String> = (0..20).map(|i| format!("service-with-a-long-name-{i}")).collect();
    for width in [10usize, 20, 40, 80, 200] {
        let line = frame_line("⠙", &many, Duration::from_secs(90), width);
        assert!(line.chars().count() <= width.saturating_sub(1));
    }
}

#[test]
fn frame_copes_with_no_room() {
    for width in [0usize, 1] {
        assert_eq!(frame_line("⠙", &vec!["philo".to_string()], Duration::ZERO, width), "");
    }
}

#[test]
fn frame_names_the_work_and_the_clock() {
    let one = frame_line("⠙", &vec!["philo".to_string()], Duration::from_secs(62), 80);
    assert!(one.contains("philo"));
    assert!(one.contains("1:02"));

    let two = frame_line(
        "⠙",
        &vec!["philo".to_string(), "catalog-api".to_string()],
        Duration::from_secs(5),
        80,
    );
    assert!(two.contains('2'));
    assert!(two.contains("philo") && two.contains("catalog-api"));
    assert!(two.contains("0:05"));
}

#[test]
fn frame_has_no_newline() {
    let line = frame_line("⠙", &vec!["philo".to_string()], Duration::from_secs(1), 80);
    assert!(!line.contains('\n'));
    assert!(!line.contains('\r'));
}

#[test]
fn a_frame_reads_exactly_and_cuts_with_an_ellipsis() {
    let line = frame_line("*", &vec!["a".to_string(), "b".to_string()], Duration::from_secs(65), 80);
    assert_eq!(line, "* 2 running: a, b · 1:05");
    let cut = frame_line("*", &vec!["abcdef".to_string()], Duration::from_secs(0), 6);
    assert_eq!(cut, "* ab…");
}

#[test]
fn the_gate_from_values() {
    assert!(gate_from(true, false, false, None, Some(String::new()), None, Some("xterm".to_string())));
    assert!(!gate_from(true, false, false, None, None, None, Some(String::new())));
}

use otto::progress::{glyph, Spinner};

#[test]
fn a_quiet_run_with_work_in_flight_draws_a_frame() {
    let mut s = Spinner::new();
    assert_eq!(s.draw_if_idle(10_000, Duration::from_secs(5), 80), None, "nothing running, nothing drawn");
    s.started("fetch");
    assert_eq!(s.draw_if_idle(100, Duration::from_secs(5), 80), None, "recent output, no frame");
    let frame = s.draw_if_idle(3_000, Duration::from_secs(65), 80).expect("quiet long enough");
    assert_eq!(frame, "\r⠋ fetch · 1:05\x1b[K");
    let next = s.draw_if_idle(4_000, Duration::from_secs(66), 80).expect("still quiet");
    assert_eq!(next, "\r⠙ fetch · 1:06\x1b[K");
    assert_eq!(s.draw_if_idle(0, Duration::from_secs(67), 80), Some("\r\x1b[K".to_string()), "output erases the frame");
    assert_eq!(s.draw_if_idle(0, Duration::from_secs(67), 80), None, "and then there is nothing to erase");
}

#[test]
fn a_finished_task_leaves_the_frame() {
    let mut s = Spinner::new();
    s.started("a");
    s.started("b");
    s.started("a");
    s.finished("a");
    let frame = s.draw_if_idle(5_000, Duration::from_secs(1), 80).unwrap();
    assert_eq!(frame, "\r⠋ 2 running: b, a · 0:01\x1b[K");
    assert!(s.hide_frame());
    assert!(!s.hide_frame());
    s.finished("missing");
    s.finished("b");
    s.finished("a");
    assert_eq!(s.draw_if_idle(5_000, Duration::from_secs(1), 80), None);
}

#[test]
fn the_frames_cycle_through_ten_glyphs() {
    assert_eq!(glyph(0), "⠋");
    assert_eq!(glyph(9), "⠏");
    assert_eq!(glyph(10), "⠋");
    assert_eq!(glyph(23), "⠸");
}
