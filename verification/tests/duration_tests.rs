use otto::duration::{format_duration, format_millis, format_task_duration};
use std::time::Duration;

#[test]
fn sub_minute_durations_read_as_bare_seconds() {
    assert_eq!(format_task_duration(Duration::from_millis(0)), "0s");
    assert_eq!(format_task_duration(Duration::from_millis(999)), "0s");
    assert_eq!(format_task_duration(Duration::from_secs(8)), "8s");
    assert_eq!(format_task_duration(Duration::from_secs(59)), "59s");
}

#[test]
fn minutes_pad_their_seconds_so_the_column_does_not_jump() {
    assert_eq!(format_task_duration(Duration::from_secs(60)), "1m00s");
    assert_eq!(format_task_duration(Duration::from_secs(114)), "1m54s");
    assert_eq!(format_task_duration(Duration::from_secs(245)), "4m05s");
    assert_eq!(format_task_duration(Duration::from_secs(2482)), "41m22s");
}

#[test]
fn hours_keep_both_lower_fields() {
    assert_eq!(format_task_duration(Duration::from_secs(3600)), "1h00m00s");
    assert_eq!(format_task_duration(Duration::from_secs(7511)), "2h05m11s");
}

#[test]
fn a_partial_second_is_never_rounded_up() {
    assert_eq!(format_task_duration(Duration::from_millis(2_900)), "2s");
    assert_eq!(format_task_duration(Duration::from_millis(59_999)), "59s");
    assert_eq!(format_task_duration(Duration::from_millis(3_599_999)), "59m59s");
}

#[test]
fn the_general_format_has_one_form_per_scale() {
    assert_eq!(format_millis(200), "200ms");
    assert_eq!(format_millis(45_000), "45.0s");
    assert_eq!(format_millis(41_040), "41.0s");
    assert_eq!(format_millis(59_960), "60.0s");
    assert_eq!(format_millis(60_000), "1m0s");
    assert_eq!(format_millis(134_000), "2m14s");
    assert_eq!(format_millis(3_723_000), "1h2m3s");
    assert_eq!(format_duration(Duration::from_secs(90)), "1m30s");
}
