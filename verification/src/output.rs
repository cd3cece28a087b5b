//! Task output as it travels: which stream a line came from, the messages a
//! live display receives, and how a chunk is written to the terminal.

use vstd::prelude::*;
use std::time::SystemTime;
use vstd::utf8::{decode_utf8, valid_utf8};
use crate::colors::{stream_task_label, TaskOrder};
use crate::heartbeat::label_for_stream;
use crate::paths::{join, join_s};
use crate::scheduler::{StatusView, TaskStatus};
use crate::text::{push_str, string_of};

verus! {

#[verifier::external_type_specification]
#[verifier::external_body]
pub struct ExSystemTime(SystemTime);

/// `SystemTime` is `Copy`; its `clone` gives back the same instant.
pub assume_specification[ <SystemTime as Clone>::clone ](t: &SystemTime) -> (r: SystemTime)
    ensures
        r == *t,
;

/// Which of a task's streams a line came from.
#[derive(Debug, Clone, Copy, PartialEq, Eq, Structural)]
pub enum OutputType {
    Stdout,
    Stderr,
}

/// One line of task output.
#[derive(Debug, Clone)]
pub struct TaskOutput {
    pub task_name: String,
    pub stream_type: OutputType,
    pub timestamp: SystemTime,
    pub content: String,
}

/// A task's status as a live display shows it.
#[derive(Debug, Clone, Copy, PartialEq, Eq, Structural)]
pub enum TuiTaskStatus {
    Pending,
    Running,
    Completed,
    Failed,
    Skipped,
}

/// What the run tells a live display.
#[derive(Debug, Clone)]
pub enum TaskMessage {
    /// A line of task output.
    Output(TaskOutput),
    /// A task's status changed.
    StatusChange { task_name: String, status: TuiTaskStatus, timestamp: SystemTime },
    /// A task started.
    Started { task_name: String, timestamp: SystemTime },
    /// A task finished.
    Finished { task_name: String, status: TuiTaskStatus, timestamp: SystemTime, duration_ms: u64 },
}

/// The display status for a run status.
pub open spec fn tui_status_of(s: StatusView) -> TuiTaskStatus {
    match s {
        StatusView::Pending => TuiTaskStatus::Pending,
        StatusView::Running => TuiTaskStatus::Running,
        StatusView::Completed => TuiTaskStatus::Completed,
        StatusView::Skipped => TuiTaskStatus::Skipped,
        StatusView::Failed(_) => TuiTaskStatus::Failed,
    }
}

pub fn to_tui_status(status: &TaskStatus) -> (r: TuiTaskStatus)
    ensures
        r == tui_status_of(status@),
{
    match status {
        TaskStatus::Pending => TuiTaskStatus::Pending,
        TaskStatus::Running => TuiTaskStatus::Running,
        TaskStatus::Completed => TuiTaskStatus::Completed,
        TaskStatus::Skipped => TuiTaskStatus::Skipped,
        TaskStatus::Failed(_) => TuiTaskStatus::Failed,
    }
}

/// The text `String::from_utf8_lossy` makes of `bytes`.
pub uninterp spec fn utf8_lossy(bytes: Seq<u8>) -> Seq<char>;

/// Calls `String::from_utf8_lossy`: the bytes as text, each invalid sequence
/// replaced by U+FFFD; valid UTF-8 comes back decoded exactly.
#[verifier::external_body]
fn lossy_text(data: &[u8]) -> (r: String)
    ensures
        r@ == utf8_lossy(data@),
        valid_utf8(data@) ==> r@ == decode_utf8(data@),
{
    String::from_utf8_lossy(data).into_owned()
}

/// A chunk of a task's output as the terminal gets it: the bytes alone
/// under `--no-prefix`, else the task's `[task]` label (coloured only when
/// the stream takes colour), a space, and the bytes.
pub fn format_terminal_output(
    order: &TaskOrder,
    task_name: &str,
    data: &[u8],
    no_prefix: bool,
    takes_color: bool,
) -> (r: String)
    ensures
        no_prefix ==> r@ == utf8_lossy(data@),
        !no_prefix ==> exists|label: Seq<char>|
            #[trigger] label_for_stream(order@, task_name@, false, takes_color, label) && r@ == label
                + seq![' '] + utf8_lossy(data@),
{
    let text = lossy_text(data);
    if no_prefix {
        return text;
    }
    let label = stream_task_label(order, task_name, false, takes_color);
    let mut out: Vec<char> = Vec::new();
    push_str(&mut out, label.as_str());
    out.push(' ');
    push_str(&mut out, text.as_str());
    let r = string_of(out.as_slice());
    proof {
        assert(label_for_stream(order@, task_name@, false, takes_color, label@));
        assert(r@ =~= label@ + seq![' '] + utf8_lossy(data@));
    }
    r
}

/// Where a task's two logs go: `<dir>/<task>/stdout.log` and `stderr.log`.
pub fn stream_log_paths(task_name: &str, output_dir: &str) -> (r: (String, String))
    ensures
        r.0@ == join_s(join_s(output_dir@, task_name@), "stdout.log"@),
        r.1@ == join_s(join_s(output_dir@, task_name@), "stderr.log"@),
{
    let dir = join(output_dir, task_name);
    (join(dir.as_str(), "stdout.log"), join(dir.as_str(), "stderr.log"))
}

} // verus!
