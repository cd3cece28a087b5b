use otto::colors::TaskOrder;
use otto::heartbeat::TaskClocks;
use otto::region::{
    colorize_name, row_cap, row_text, row_text_with, sanitize, truncate, Row, CHROME_ROWS, MIN_ROWS,
};

fn row(name: &str) -> Row {
    let mut clocks = TaskClocks::default();
    clocks.start(name);
    Row { name: name.to_string(), label: name.to_string(), clock: clocks.get(name).unwrap() }
}

#[test]
fn the_row_cap_leaves_room_for_the_overflow_row_and_the_prompt() {
    assert_eq!(row_cap(24), 18);
    assert_eq!(row_cap(50), 44);
}

#[test]
fn a_short_terminal_still_leaves_the_separator_and_the_overflow_row_a_line_each() {
    assert_eq!(row_cap(9), MIN_ROWS);
    for height in 1..=12u16 {
        let cap = row_cap(height);
        assert!(cap >= 1);
        assert!(cap + CHROME_ROWS as usize <= (height as usize).max(3));
    }
    assert_eq!(row_cap(3), 1);
    assert_eq!(row_cap(4), 2);
    assert_eq!(row_cap(5), 3);
    assert_eq!(row_cap(1), 1);
    assert_eq!(row_cap(0), 1);
}

#[test]
fn a_row_names_its_task_and_how_long_it_has_run() {
    let r = row("philo");
    let text = row_text(&TaskOrder::new(), &r, 8, 80, false);
    assert!(text.starts_with("philo     running "), "got {text:?}");
}

#[test]
fn a_row_says_nothing_about_silence_until_the_silence_is_worth_saying() {
    let r = row("quiet");
    assert!(!row_text(&TaskOrder::new(), &r, 5, 80, false).contains("no output for"));
}

#[test]
fn sanitizing_drops_control_bytes_and_expands_tabs() {
    assert_eq!(sanitize("a\tb"), "a    b");
    assert_eq!(sanitize("a\rb\nc\x07d"), "abcd");
    assert_eq!(sanitize("plain"), "plain");
}

#[test]
fn sanitizing_strips_escape_sequences_whole() {
    assert_eq!(sanitize("\x1b[31mred\x1b[0m"), "red");
    assert_eq!(sanitize("\x1b[2Jwipe"), "wipe");
    assert_eq!(sanitize("\x1bMreverse-index"), "reverse-index");
    assert_eq!(sanitize("keep\x1b["), "keep");
}

#[test]
fn a_row_takes_no_colour_when_stderr_takes_none() {
    assert_eq!(colorize_name(&TaskOrder::new(), "alpha  running 3s", "alpha", false), "alpha  running 3s");
}

#[test]
fn colour_is_skipped_when_truncation_ate_the_name() {
    let cut = "alp";
    assert_eq!(colorize_name(&TaskOrder::new(), cut, "alpha", true), cut);
}

#[test]
fn truncation_measures_columns_not_bytes() {
    assert_eq!(truncate("abcdef", 3), "abc");
    assert_eq!(truncate("abc", 10), "abc");
    assert_eq!(truncate("\u{5b9d}\u{5b9d}\u{5b9d}", 5), "\u{5b9d}\u{5b9d}");
}

#[test]
fn truncation_never_splits_a_grapheme_cluster() {
    let text = "e\u{301}e\u{301}e\u{301}";
    assert_eq!(truncate(text, 2), "e\u{301}e\u{301}");
    assert_eq!(truncate(text, 1), "e\u{301}");
}

#[test]
fn a_long_silence_is_reported_in_the_row() {
    let text = row_text_with(&TaskOrder::new(), "build", 6, 80, false, 75, 12_000);
    assert_eq!(text, "build   running 1m15s   no output for 12s");
    let short = row_text_with(&TaskOrder::new(), "build", 6, 80, false, 75, 4_999);
    assert_eq!(short, "build   running 1m15s");
}

use otto::rows::{BarOp, Region};

fn names(ns: &[&str]) -> Vec<String> {
    ns.iter().map(|n| n.to_string()).collect()
}

/// The screen a run of bar changes leaves: separator, rows by name, overflow.
fn apply(screen: &mut (bool, Vec<String>, bool), ops: Vec<BarOp>) {
    for op in ops {
        match op {
            BarOp::AddSeparator => screen.0 = true,
            BarOp::AttachRow(name) => screen.1.push(name),
            BarOp::RemoveRow(i) => {
                screen.1.remove(i);
            }
            BarOp::AddOverflow => screen.2 = true,
            BarOp::RemoveOverflow => screen.2 = false,
            BarOp::ClearAll => *screen = (false, Vec::new(), false),
        }
    }
}

#[test]
fn a_resize_moves_rows_between_the_screen_and_the_overflow_row() {
    let mut region = Region::new(&names(&["a", "b", "c", "d"]));
    for task in ["a", "b", "c", "d"] {
        region.started(task, 4);
    }
    assert_eq!(region.row_labels(), vec!["a", "b", "c", "d"]);
    assert!(!region.has_overflow_row(), "four rows under a cap of four hide nothing");

    region.refresh(2);
    assert_eq!(region.row_labels(), vec!["a", "b"], "a shrink must demote from the end");
    assert_eq!(region.waiting_len(), 2);
    assert!(region.has_overflow_row(), "the rows a shrink took off the screen still have to be counted");

    region.refresh(4);
    assert_eq!(region.row_labels(), vec!["a", "b", "c", "d"], "a regrow must promote the same rows back in the same order");
    assert_eq!(region.waiting_len(), 0);
    assert!(!region.has_overflow_row(), "nothing is hidden any more");
}

#[test]
fn rows_past_the_cap_are_counted_by_one_overflow_row() {
    let mut region = Region::new(&names(&["a", "b", "c", "d", "e"]));
    for task in ["a", "b"] {
        region.started(task, 2);
    }
    assert_eq!(region.row_labels(), vec!["a", "b"]);
    assert!(!region.has_overflow_row(), "two rows under a cap of two need no overflow");
    for task in ["c", "d", "e"] {
        region.started(task, 2);
    }
    assert_eq!(region.row_labels(), vec!["a", "b"], "the cap must hold");
    assert_eq!(region.waiting_len(), 3);
    assert!(region.has_overflow_row(), "three hidden tasks need the overflow row");
}

#[test]
fn a_task_finishing_in_the_middle_gives_its_row_up_to_a_waiting_task() {
    let mut region = Region::new(&names(&["a", "b", "c", "d"]));
    for task in ["a", "b", "c", "d"] {
        region.started(task, 3);
    }
    assert_eq!(region.row_labels(), vec!["a", "b", "c"]);
    assert_eq!(region.waiting_len(), 1);
    region.finished("b", 3);
    assert_eq!(region.row_labels(), vec!["a", "c", "d"], "d must take the freed row");
    assert_eq!(region.waiting_len(), 0);
    assert!(!region.has_overflow_row(), "nothing is hidden any more");
}

#[test]
fn a_task_that_finishes_while_waiting_is_dropped_from_the_count() {
    let mut region = Region::new(&names(&["a", "b", "c"]));
    for task in ["a", "b", "c"] {
        region.started(task, 1);
    }
    assert_eq!(region.waiting_len(), 2);
    region.finished("c", 1);
    assert_eq!(region.waiting_len(), 1);
    assert_eq!(region.row_labels(), vec!["a"], "a waiting task finishing promotes nobody");
}

#[test]
fn the_last_row_finishing_leaves_nothing_drawn() {
    let mut region = Region::new(&names(&["only"]));
    assert!(!region.is_drawn(), "a region with no rows has nothing on the screen");
    region.started("only", 18);
    assert!(region.is_drawn());
    region.finished("only", 18);
    assert!(!region.is_drawn(), "the separator goes with the last row");
}

#[test]
fn a_task_started_twice_gets_one_row() {
    let mut region = Region::new(&names(&["a"]));
    region.started("a", 18);
    region.started("a", 18);
    assert_eq!(region.row_labels(), vec!["a"]);
}

#[test]
fn a_task_name_carrying_an_escape_cannot_reach_a_row() {
    let mut region = Region::new(&names(&["\x1b[2Jbad"]));
    region.started("\x1b[2Jbad", 18);
    assert_eq!(region.row_labels(), vec!["bad"]);
}

#[test]
fn a_row_is_cut_to_one_column_short_of_the_terminal() {
    let mut clocks = TaskClocks::default();
    clocks.start("wide");
    let r = Row { name: "x".repeat(200), label: "x".repeat(200), clock: clocks.get("wide").unwrap() };
    let text = row_text(&TaskOrder::new(), &r, 0, 40, false);
    assert_eq!(console::measure_text_width(&text), 40);
}

#[test]
fn the_bar_changes_keep_the_screen_in_step() {
    let mut region = Region::new(&names(&["a", "b", "c"]));
    let mut screen = (false, Vec::new(), false);
    apply(&mut screen, region.started("a", 2));
    assert_eq!(screen, (true, names(&["a"]), false));
    apply(&mut screen, region.started("b", 2));
    apply(&mut screen, region.started("c", 2));
    assert_eq!(screen, (true, names(&["a", "b"]), true));
    apply(&mut screen, region.finished("a", 2));
    assert_eq!(screen, (true, names(&["b", "c"]), false));
    apply(&mut screen, region.refresh(1));
    assert_eq!(screen, (true, names(&["b"]), true));
    apply(&mut screen, region.finished("b", 1));
    assert_eq!(screen, (true, names(&["c"]), false));
    apply(&mut screen, region.finished("c", 1));
    assert_eq!(screen, (false, Vec::new(), false));
}

#[test]
fn the_name_column_fits_the_widest_safe_name_up_to_the_limit() {
    assert_eq!(Region::new(&names(&["a", "\x1b[31mbb\x1b[0m", "c"])).name_width(), 2);
    assert_eq!(Region::new(&names(&[&"n".repeat(40)])).name_width(), 24);
    assert_eq!(Region::new(&names(&[])).name_width(), 0);
}

#[test]
fn the_overflow_row_counts_the_hidden_tasks() {
    let mut region = Region::new(&names(&["a", "b", "c"]));
    for task in ["a", "b", "c"] {
        region.started(task, 1);
    }
    assert_eq!(region.overflow_line(80), "... and 2 more running");
    assert_eq!(region.overflow_line(7), "... and");
    assert_eq!(Region::separator_line(3), "---");
}
