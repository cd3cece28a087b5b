//! Status words stored for runs and tasks.

use vstd::prelude::*;
use crate::text::str_eq;

verus! {

/// Status of a run.
#[derive(Debug, Clone, Copy, PartialEq, Eq, Structural)]
pub enum RunStatus {
    Running,
    Success,
    Failed,
}

/// The stored spelling of a run status.
pub open spec fn run_status_word(s: RunStatus) -> Seq<char> {
    match s {
        RunStatus::Running => "running"@,
        RunStatus::Success => "success"@,
        RunStatus::Failed => "failed"@,
    }
}

/// The run status a stored word names, if any.
pub open spec fn run_status_from(w: Seq<char>) -> Option<RunStatus> {
    if w == "running"@ {
        Some(RunStatus::Running)
    } else if w == "success"@ {
        Some(RunStatus::Success)
    } else if w == "failed"@ {
        Some(RunStatus::Failed)
    } else {
        None
    }
}

impl RunStatus {
    pub fn as_str(&self) -> (r: &'static str)
        ensures
            r@ == run_status_word(*self),
    {
        match self {
            RunStatus::Running => "running",
            RunStatus::Success => "success",
            RunStatus::Failed => "failed",
        }
    }

    pub fn parse(s: &str) -> (r: Option<RunStatus>)
        ensures
            r == run_status_from(s@),
    {
        if str_eq(s, "running") {
            Some(RunStatus::Running)
        } else if str_eq(s, "success") {
            Some(RunStatus::Success)
        } else if str_eq(s, "failed") {
            Some(RunStatus::Failed)
        } else {
            None
        }
    }
}

/// Status of a task.
#[derive(Debug, Clone, Copy, PartialEq, Eq, Structural)]
pub enum TaskStatus {
    Pending,
    Running,
    Completed,
    Failed,
    Skipped,
}

/// The stored spelling of a task status.
pub open spec fn task_status_word(s: TaskStatus) -> Seq<char> {
    match s {
        TaskStatus::Pending => "pending"@,
        TaskStatus::Running => "running"@,
        TaskStatus::Completed => "completed"@,
        TaskStatus::Failed => "failed"@,
        TaskStatus::Skipped => "skipped"@,
    }
}

/// The task status a stored word names, if any.
pub open spec fn task_status_from(w: Seq<char>) -> Option<TaskStatus> {
    if w == "pending"@ {
        Some(TaskStatus::Pending)
    } else if w == "running"@ {
        Some(TaskStatus::Running)
    } else if w == "completed"@ {
        Some(TaskStatus::Completed)
    } else if w == "failed"@ {
        Some(TaskStatus::Failed)
    } else if w == "skipped"@ {
        Some(TaskStatus::Skipped)
    } else {
        None
    }
}

impl TaskStatus {
    pub fn as_str(&self) -> (r: &'static str)
        ensures
            r@ == task_status_word(*self),
    {
        match self {
            TaskStatus::Pending => "pending",
            TaskStatus::Running => "running",
            TaskStatus::Completed => "completed",
            TaskStatus::Failed => "failed",
            TaskStatus::Skipped => "skipped",
        }
    }

    pub fn parse(s: &str) -> (r: Option<TaskStatus>)
        ensures
            r == task_status_from(s@),
    {
        if str_eq(s, "pending") {
            Some(TaskStatus::Pending)
        } else if str_eq(s, "running") {
            Some(TaskStatus::Running)
        } else if str_eq(s, "completed") {
            Some(TaskStatus::Completed)
        } else if str_eq(s, "failed") {
            Some(TaskStatus::Failed)
        } else if str_eq(s, "skipped") {
            Some(TaskStatus::Skipped)
        } else {
            None
        }
    }
}

/// A run status read back from the word stored for it is the same status.
pub proof fn run_status_round_trip(s: RunStatus)
    ensures
        run_status_from(run_status_word(s)) == Some(s),
{
    reveal_strlit("running");
    reveal_strlit("success");
    reveal_strlit("failed");
    assert("running"@[0] == 'r' && "success"@[0] == 's' && "failed"@[0] == 'f');
}

/// A task status read back from the word stored for it is the same status.
pub proof fn task_status_round_trip(s: TaskStatus)
    ensures
        task_status_from(task_status_word(s)) == Some(s),
{
    reveal_strlit("pending");
    reveal_strlit("running");
    reveal_strlit("completed");
    reveal_strlit("failed");
    reveal_strlit("skipped");
    assert("pending"@[0] == 'p' && "running"@[0] == 'r' && "completed"@[0] == 'c');
    assert("failed"@[0] == 'f' && "skipped"@[0] == 's');
}


/// How many projects, runs and tasks the history database holds.
#[derive(Debug, Clone, Copy)]
pub struct DatabaseStats {
    pub project_count: i64,
    pub run_count: i64,
    pub task_count: i64,
}

} // verus!
