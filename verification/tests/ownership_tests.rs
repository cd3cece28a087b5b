use otto::facade::{Facade, Stream};
use otto::hold::{read_spill, spill_header, spill_record, Route, Segment, SpillOutcome, Surrendered, SPILL_HEADER_BYTES, SURRENDER_MEMORY_BYTES};

/// A hold with its spill file kept in memory: `None` until the first
/// spilled write opens it, and never opened when `openable` is false.
struct Held {
    core: Surrendered,
    file: Option<Vec<u8>>,
    openable: bool,
}

impl Held {
    fn new(task: &str) -> Held {
        Held { core: Surrendered::new(task), file: None, openable: true }
    }

    fn push(&mut self, stream: Stream, bytes: &[u8]) {
        if self.core.push(stream, bytes) != Route::Spill {
            return;
        }
        if self.file.is_none() {
            if !self.openable {
                self.core.record_spill(stream, bytes, SpillOutcome::NotOpened("could not create otto-held.log: Is a directory".to_string()));
                return;
            }
            self.file = Some(Vec::new());
        }
        self.file.as_mut().unwrap().extend_from_slice(&spill_record(stream, bytes));
        self.core.record_spill(stream, bytes, SpillOutcome::Written);
    }
}

/// Everything held, re-streamed to two in-memory handles in the order re-arm
/// writes it.
fn drained_parts(core: Surrendered, mut file: Option<Vec<u8>>) -> (String, String) {
    let d = core.drain();
    let spilled = if d.spilled {
        read_spill(&file.take().expect("a spill that started has a file"))
    } else {
        Vec::new()
    };
    assert!(file.is_none(), "the spill file must be removed once re-streamed");
    let (out, mut err) = d.into_streams(&spilled);
    if let Some(w) = &d.warning {
        err.extend_from_slice(w.as_bytes());
    }
    (String::from_utf8(out).expect("stdout is utf8"), String::from_utf8(err).expect("stderr is utf8"))
}

fn drained(held: Held) -> (String, String) {
    drained_parts(held.core, held.file)
}

#[test]
fn held_writes_come_back_in_order_on_rearm() {
    let mut held = Held::new("interactive");
    held.push(Stream::Stdout, b"[alpha] one\n");
    held.push(Stream::Stderr, b"[alpha] warning\n");
    held.push(Stream::Stdout, b"[alpha] two\n");
    held.push(Stream::Stderr, b"[alpha] finished successfully\n");
    assert!(!held.core.spilled(), "four short lines must not reach the spill file");
    let (out, err) = drained(held);
    assert_eq!(out, "[alpha] one\n[alpha] two\n");
    assert_eq!(err, "[alpha] warning\n[alpha] finished successfully\n");
}

#[test]
fn an_empty_write_is_not_held() {
    let mut held = Held::new("interactive");
    held.push(Stream::Stdout, b"");
    assert_eq!(held.core.held_bytes(), 0);
    let (out, err) = drained(held);
    assert!(out.is_empty() && err.is_empty());
}

#[test]
fn past_the_bound_held_output_spills_to_a_file_and_still_replays_whole() {
    let mut held = Held::new("interactive");
    let chunk = "x".repeat(SURRENDER_MEMORY_BYTES / 2);
    for _ in 0..4 {
        held.push(Stream::Stdout, chunk.as_bytes());
    }
    held.push(Stream::Stderr, b"[bulk] finished successfully\n");
    assert!(held.core.spilled(), "four half-bound chunks must have spilled");
    assert!(held.core.held_bytes() <= SURRENDER_MEMORY_BYTES, "memory grew past the bound: {} bytes", held.core.held_bytes());
    assert!(held.file.is_some(), "the spill file must exist while surrendered");
    let (out, err) = drained(held);
    assert_eq!(out.len(), chunk.len() * 4, "every spilled byte must come back");
    assert!(out.chars().all(|c| c == 'x'));
    assert_eq!(err, "[bulk] finished successfully\n");
}

#[test]
fn the_spill_preserves_stream_and_order_across_the_boundary() {
    let mut held = Held::new("interactive");
    held.push(Stream::Stdout, b"before-out\n");
    held.push(Stream::Stderr, b"before-err\n");
    held.push(Stream::Stdout, "y".repeat(SURRENDER_MEMORY_BYTES).as_bytes());
    held.push(Stream::Stderr, b"after-err\n");
    held.push(Stream::Stdout, b"after-out\n");
    let (out, err) = drained(held);
    assert!(out.starts_with("before-out\ny"), "stdout lost its ordering: {}", &out[..24]);
    assert!(out.ends_with("yafter-out\n"), "a post-spill stdout write went missing");
    assert_eq!(err, "before-err\nafter-err\n");
}

#[test]
fn a_spill_that_cannot_be_opened_keeps_the_output_and_reports_itself() {
    let mut held = Held::new("interactive");
    held.openable = false;
    held.push(Stream::Stdout, "z".repeat(SURRENDER_MEMORY_BYTES + 1).as_bytes());
    assert!(!held.core.spilled(), "nothing can have reached a file that would not open");
    let (out, err) = drained(held);
    assert_eq!(out.len(), SURRENDER_MEMORY_BYTES + 1, "held output was dropped");
    assert!(err.contains("could not be spilled") && err.contains("interactive"), "a failed spill must name itself and the task: {err}");
}

#[test]
fn after_a_failed_spill_later_writes_keep_their_order() {
    let mut held = Held::new("interactive");
    held.openable = false;
    held.push(Stream::Stdout, "z".repeat(SURRENDER_MEMORY_BYTES + 1).as_bytes());
    held.push(Stream::Stdout, b"small\n");
    let (out, _) = drained(held);
    assert!(out.ends_with("zsmall\n"), "a write after the failure came back out of order");
}

#[test]
fn a_spill_record_reads_back_as_written() {
    let rec = spill_record(Stream::Stderr, b"hello");
    assert_eq!(rec.len(), SPILL_HEADER_BYTES + 5);
    assert_eq!(rec[0], 1);
    assert_eq!(&rec[1..9], &5u64.to_le_bytes());
    assert_eq!(spill_header(&rec[..9]), (Stream::Stderr, 5));
    let big = vec![0u8; 70000];
    let rec = spill_record(Stream::Stdout, &big);
    assert_eq!(spill_header(&rec[..9]), (Stream::Stdout, 70000));
}

#[test]
fn the_facade_holds_writes_while_the_terminal_is_surrendered() {
    let mut f = Facade::new();
    let handoff = f.surrender("interactive");
    assert!(handoff.owns);
    f.write(Stream::Stdout, "[alpha] status\n");
    assert_eq!(f.hold(Stream::Stdout, b"[alpha] block\n"), Route::Held);
    assert_eq!(f.hold(Stream::Stderr, b"[alpha] block-err\n"), Route::Held);
    let held = f.take_held().expect("the terminal is surrendered");
    let (out, err) = drained_parts(held, None);
    assert_eq!(out, "[alpha] status\n[alpha] block\n");
    assert_eq!(err, "[alpha] block-err\n");
    assert!(f.reclaim().is_none());
    assert!(f.take_held().is_none(), "the terminal was not handed back");
}

#[test]
fn a_second_surrender_does_not_take_or_release_the_terminal() {
    let mut f = Facade::new();
    let first = f.surrender("interactive");
    assert!(first.owns);
    {
        let second = f.surrender("other");
        assert!(!second.owns, "a second surrender took a terminal it never had");
        f.write(Stream::Stdout, "");
    }
    assert!(f.take_held().is_some(), "the second guard's drop released a terminal it never took");
}

#[test]
fn teardown_hands_the_terminal_back_rather_than_leaving_output_held() {
    let mut f = Facade::new();
    let handoff = f.surrender("interactive");
    assert!(handoff.owns);
    f.write(Stream::Stderr, "");
    let t = f.teardown();
    assert!(t.held.is_some());
    assert!(f.take_held().is_none(), "teardown left the terminal surrendered, so held output would die with the process");
}

#[test]
fn a_spill_file_reads_back_its_records_and_stops_at_a_cut_one() {
    let mut file = spill_record(Stream::Stdout, b"one\n");
    file.extend_from_slice(&spill_record(Stream::Stderr, b"two\n"));
    let whole = read_spill(&file);
    assert_eq!(whole.len(), 2);
    assert!(whole[0].stream == Stream::Stdout && whole[0].bytes == b"one\n");
    assert!(whole[1].stream == Stream::Stderr && whole[1].bytes == b"two\n");
    let cut = read_spill(&file[..file.len() - 1]);
    assert_eq!(cut.len(), 1);
    let segs: Vec<Segment> = whole;
    assert_eq!(segs[1].bytes.len(), 4);
}

#[test]
fn each_stream_gets_its_own_writes_back_in_order() {
    let mut held = Held::new("interactive");
    held.push(Stream::Stdout, b"a");
    held.push(Stream::Stderr, b"x");
    held.push(Stream::Stdout, b"b");
    held.push(Stream::Stderr, b"y");
    let (out, err) = drained(held);
    assert_eq!(out, "ab");
    assert_eq!(err, "xy");
}
