use otto::output::{OutputType, TaskOutput};
use otto::tui::PaneStatus;
use otto::visualizer::{format_output, format_output_at, VisualizerConfig};
use std::time::{Duration, SystemTime};

fn line(stream: OutputType, at: SystemTime) -> TaskOutput {
    TaskOutput { task_name: "test_task".to_string(), stream_type: stream, timestamp: at, content: "test output".to_string() }
}

#[test]
fn test_output_formatting() {
    let config = VisualizerConfig { show_timestamps: true, show_task_names: true, show_stream_types: true, max_lines: 10 };
    let formatted = format_output(&config, &line(OutputType::Stdout, SystemTime::UNIX_EPOCH));
    assert_eq!(formatted, "[0] [test_task] [out] test output");
}

#[test]
fn the_parts_shown_follow_the_configuration() {
    let config = VisualizerConfig { show_timestamps: false, show_task_names: false, show_stream_types: true, ..VisualizerConfig::default() };
    let at = SystemTime::UNIX_EPOCH + Duration::from_secs(42);
    assert_eq!(format_output(&config, &line(OutputType::Stderr, at)), "[err] test output");
    let all = VisualizerConfig::default();
    assert_eq!(format_output(&all, &line(OutputType::Stderr, at)), "[42] [test_task] [err] test output");
    assert_eq!(format_output_at(&all, 7, &line(OutputType::Stdout, at)), "[7] [test_task] [out] test output");
    assert_eq!(all.max_lines, 1000);
}

#[test]
fn each_pane_status_has_its_mark() {
    assert_eq!(PaneStatus::Pending.symbol(), "○");
    assert_eq!(PaneStatus::Running.symbol(), "●");
    assert_eq!(PaneStatus::Completed.symbol(), "✓");
    assert_eq!(PaneStatus::Failed.symbol(), "✗");
    assert_eq!(PaneStatus::Skipped.symbol(), "⊘");
}
