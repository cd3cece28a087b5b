use otto::facade::{reset_targets, Stream};

#[test]
fn a_reset_goes_to_whichever_handle_is_a_terminal() {
    assert_eq!(reset_targets(false, true, false), vec![Stream::Stderr]);
    assert_eq!(reset_targets(true, false, false), vec![Stream::Stdout]);
    assert_eq!(reset_targets(true, true, true), vec![Stream::Stderr]);
    assert_eq!(reset_targets(false, false, false), Vec::<Stream>::new());
}

#[test]
fn two_distinct_terminals_each_get_a_reset() {
    assert_eq!(reset_targets(true, true, false), vec![Stream::Stdout, Stream::Stderr]);
}

use otto::facade::{BlockPlan, Delivery, Facade};
use otto::mode::ProgressMode;

#[test]
fn an_unterminated_chunk_on_one_stream_leaves_the_other_at_line_start() {
    let mut f = Facade::with_one_destination(false);
    f.note_written(Stream::Stderr, b"ERR");
    assert!(!f.line_start(Stream::Stderr), "stderr is mid-line after an unterminated chunk");
    assert!(f.line_start(Stream::Stdout), "a write to stderr moved no cursor on a stdout that is somewhere else");
}

#[test]
fn two_handles_on_one_destination_share_one_line_state() {
    let mut f = Facade::with_one_destination(true);
    f.note_written(Stream::Stdout, b"DONE");
    assert!(!f.line_start(Stream::Stderr), "an unterminated chunk on stdout left the shared cursor mid-line");
    f.note_written(Stream::Stderr, b"\n");
    assert!(f.line_start(Stream::Stdout), "a newline on stderr put the shared cursor back at column zero");
}

#[test]
fn both_handback_paths_close_the_childs_sgr_state() {
    let mut reclaimed = Facade::with_one_destination(false);
    let handoff = reclaimed.surrender("owner");
    assert!(handoff.owns);
    assert_eq!(reclaimed.sgr_resets(), 0, "nothing has been handed back yet");
    assert!(reclaimed.reclaim().is_some());
    assert_eq!(reclaimed.sgr_resets(), 1, "the normal handback closes the child's SGR state");

    let mut torn_down = Facade::with_one_destination(false);
    let handoff = torn_down.surrender("owner");
    assert!(handoff.owns);
    torn_down.teardown();
    assert_eq!(torn_down.sgr_resets(), 1, "teardown is a handback too: it is where a first SIGINT takes the terminal back");
    assert!(torn_down.reclaim().is_none());
    assert_eq!(torn_down.sgr_resets(), 1, "and the handoff's Drop then finds nothing held, which is the window the reset was missing from");
}

#[test]
fn teardown_is_idempotent() {
    let mut f = Facade::new();
    f.teardown();
    let again = f.teardown();
    assert!(!again.erase_region && again.held.is_none());
    f.write(Stream::Stdout, "");
    f.teardown();
}

#[test]
fn quiet_installs_no_region() {
    let mut f = Facade::new();
    assert!(!f.set_region(ProgressMode::Quiet, &vec!["a".to_string()]));
    assert!(!f.refresh(18).0, "with no region there is nothing to refresh and no thread to keep");
}

#[test]
fn a_live_region_is_installed_exactly_once() {
    let mut f = Facade::new();
    assert!(f.set_region(ProgressMode::Live, &vec!["a".to_string(), "bb".to_string()]));
    assert!(!f.set_region(ProgressMode::Live, &vec!["a".to_string()]));
    assert!(f.refresh(18).0, "an installed region keeps the refresh thread going");
}

#[test]
fn teardown_retires_the_region_and_with_it_the_refresh_thread() {
    let mut f = Facade::new();
    assert!(f.set_region(ProgressMode::Live, &vec!["a".to_string()]));
    assert!(f.teardown().erase_region);
    assert!(!f.refresh(18).0, "teardown must stop the refresh thread");
}

#[test]
fn row_mutation_with_no_region_is_a_no_op() {
    let mut f = Facade::new();
    assert!(f.task_started("a", 18).is_none());
    assert!(f.task_finished("a", 18).is_none());
    assert!(f.task_finished("never-started", 18).is_none());
}

#[test]
fn a_surrendered_terminal_takes_no_row_updates() {
    let mut f = Facade::new();
    assert!(f.set_region(ProgressMode::Live, &vec!["owner".to_string(), "a".to_string()]));
    let handoff = f.surrender("owner");
    assert!(handoff.owns && handoff.erase_region);
    assert!(f.task_started("a", 18).is_none());
    assert!(f.refresh(18).0, "the region is still installed while surrendered");
    assert!(f.region().unwrap().row_labels().is_empty());
    let back = f.reclaim().expect("the terminal was surrendered");
    assert!(back.1, "the region is redrawn on the way back");
}

#[test]
fn a_line_after_an_unterminated_chunk_starts_on_a_new_line() {
    let mut f = Facade::with_one_destination(true);
    f.write(Stream::Stdout, "DONE");
    let (text, d) = f.write_line(Stream::Stderr, "[t] finished successfully\n");
    assert_eq!(text, "\n[t] finished successfully\n");
    assert!(matches!(d, Delivery::Direct));
    let (text, _) = f.write_line(Stream::Stderr, "next\n");
    assert_eq!(text, "next\n");
}

#[test]
fn a_write_around_the_region_leaves_stderr_at_column_zero() {
    let mut f = Facade::new();
    assert!(f.set_region(ProgressMode::Live, &vec!["a".to_string()]));
    let row = f.task_started("a", 18).expect("a region is installed");
    assert!(!row.newline);
    match f.write(Stream::Stdout, "partial") {
        Delivery::AroundRegion { newline } => assert!(newline, "the rows must not start mid-line"),
        _ => panic!("a write with a region installed goes around it"),
    }
    assert!(f.line_start(Stream::Stderr));
    assert_eq!(f.block_plan(), BlockPlan::AroundRegion);
}
