use std::time::SystemTime;

use otto::output::{OutputType, TaskOutput};
use otto::tui::{grid_shape, poll_timeout_ms, status_help, tui_step, Key, PaneAction, PaneLayout, PaneStatus, TaskPane, ViewState, PANE_BUFFER_LINES};

fn output(task: &str, content: &str) -> TaskOutput {
    TaskOutput {
        task_name: task.to_string(),
        stream_type: OutputType::Stdout,
        timestamp: SystemTime::now(),
        content: content.to_string(),
    }
}

#[test]
fn the_grid_grows_with_the_pane_count() {
    assert_eq!(grid_shape(1), (1, 1));
    assert_eq!(grid_shape(2), (1, 2));
    assert_eq!(grid_shape(3), (2, 2));
    assert_eq!(grid_shape(6), (2, 3));
    assert_eq!(grid_shape(9), (3, 3));
    assert_eq!(grid_shape(12), (3, 4));
    assert_eq!(grid_shape(40), (4, 4));
}

#[test]
fn focus_wraps_both_ways() {
    let mut layout: PaneLayout<&str> = PaneLayout::new();
    layout.focus_next();
    assert_eq!(layout.focused_index(), 0);
    layout.add_pane("a");
    layout.add_pane("b");
    layout.add_pane("c");
    layout.focus_prev();
    assert_eq!(layout.focused_index(), 2);
    layout.focus_next();
    assert_eq!(layout.focused_index(), 0);
    layout.focus_next();
    layout.focus_prev();
    assert_eq!(layout.focused_index(), 0);
}

#[test]
fn a_pane_keeps_its_own_tasks_last_lines() {
    let mut pane = TaskPane::new("build");
    pane.receive(&output("build", "one\ntwo\r\nthree"));
    pane.receive(&output("test", "not mine\n"));
    let (start, end) = pane.visible_range(10);
    assert_eq!(pane.lines_between(start, end), vec!["one", "two", "three"]);
    let many: String = (0..1005).map(|i| format!("line {i}\n")).collect();
    pane.receive(&output("build", &many));
    let (start, end) = pane.visible_range(PANE_BUFFER_LINES + 10);
    let kept = pane.lines_between(start, end);
    assert_eq!(kept.len(), PANE_BUFFER_LINES);
    assert_eq!(kept[0], "line 5");
    assert_eq!(kept[PANE_BUFFER_LINES - 1], "line 1004");
}

#[test]
fn scrolling_stops_at_both_ends() {
    let mut pane = TaskPane::new("build");
    pane.scroll_up();
    pane.scroll_down(20);
    assert_eq!(pane.visible_range(20), (0, 0));
    pane.receive(&output("build", "a\nb\nc\nd\n"));
    pane.scroll_down(2);
    pane.scroll_down(2);
    pane.scroll_down(2);
    assert_eq!(pane.visible_range(2), (2, 4));
    pane.scroll_up();
    assert_eq!(pane.visible_range(2), (1, 3));
    pane.reset_scroll();
    assert_eq!(pane.visible_range(2), (0, 2));
}

#[test]
fn a_pane_title_names_its_task_and_status() {
    let mut pane = TaskPane::new("build");
    assert_eq!(pane.title(), " build ○ ");
    pane.set_status(PaneStatus::Failed);
    assert_eq!(pane.title(), " build ✗ ");
    assert_eq!(pane.id(), "build");
}

#[test]
fn keys_quit_toggle_and_steer() {
    let mut view = ViewState::new();
    assert_eq!(view.handle_key_event(Key::Tab), PaneAction::FocusNext);
    assert_eq!(view.handle_key_event(Key::Left), PaneAction::FocusPrev);
    assert_eq!(view.handle_key_event(Key::Char('j')), PaneAction::ScrollDown(20));
    assert_eq!(view.handle_key_event(Key::Up), PaneAction::ScrollUp);
    assert_eq!(view.handle_key_event(Key::Home), PaneAction::ResetScroll);
    assert_eq!(view.handle_key_event(Key::PageDown), PaneAction::NextPage);
    assert_eq!(view.handle_key_event(Key::Char('f')), PaneAction::Stay);
    assert!(view.fullscreen_mode);
    view.handle_key_event(Key::Enter);
    assert!(!view.fullscreen_mode);
    assert!(!view.should_quit);
    view.handle_key_event(Key::Char('x'));
    assert!(!view.should_quit);
    view.handle_key_event(Key::Esc);
    assert!(view.should_quit);
}

#[test]
fn the_status_bar_says_what_the_keys_do() {
    assert_eq!(status_help(false, 1, 1), "f/Enter: Fullscreen | Tab/←→: Switch Pane | ↑↓/jk: Scroll | Home: Top | q/Esc: Quit");
    assert_eq!(status_help(true, 3, 2), " [Page 2/3] f/Enter: Exit Fullscreen | ↑↓/jk: Scroll | Home: Top | q/Esc: Quit");
    assert!(status_help(false, 2, 1).starts_with(" [Page 1/2] PgUp/PgDn: Change Page"));
}

#[test]
fn a_loop_turn_takes_presses_ticks_on_time_and_stops_on_shutdown() {
    assert_eq!(poll_timeout_ms(250, 100), 150);
    assert_eq!(poll_timeout_ms(250, 400), 0);
    let mut v = ViewState::new();
    let s = tui_step(&mut v, Some((Key::Tab, true)), 250, 100, false);
    assert_eq!(s.action, PaneAction::FocusNext);
    assert!(!s.tick && !s.quit);
    let s = tui_step(&mut v, Some((Key::Char('q'), false)), 250, 300, false);
    assert_eq!(s.action, PaneAction::Stay);
    assert!(s.tick && !s.quit);
    let s = tui_step(&mut v, None, 250, 0, true);
    assert!(s.quit && v.should_quit);
    let mut w = ViewState::new();
    assert!(tui_step(&mut w, Some((Key::Esc, true)), 250, 0, false).quit);
}
