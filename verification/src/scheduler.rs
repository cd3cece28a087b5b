//! The decisions of a run, kept apart from the processes that carry them out:
//! which task to start next, what a skipped, finished or failed task changes,
//! and whether a task's outputs are older than its inputs.
//!
//! The caller drives the run: it asks [`TaskScheduler::next_step`] what to do,
//! checks the files of a task it is handed, starts the task's process, and
//! reports back what became of it.

use vstd::prelude::*;
use crate::task::{Task, TaskView};
use crate::text::{
    chars_of, contains_string, find, find_s, sub_chars, trim, trim_s, insert_name, insert_string, lemma_insert_name, lemma_remove_name,
    push_str, remove_name,
    remove_string, split_whitespace, str_eq, string_of, string_views, words_s,
};

verus! {

broadcast use vstd::seq_lib::group_seq_properties;

/// Status of a task during a run.
#[derive(Debug, Clone, PartialEq)]
pub enum TaskStatus {
    /// Waiting for its dependencies.
    Pending,
    /// Its process is running.
    Running,
    /// It ran and succeeded.
    Completed,
    /// Its outputs were up to date, so it did not run.
    Skipped,
    /// It failed, with the reason.
    Failed(String),
}

pub enum StatusView {
    Pending,
    Running,
    Completed,
    Skipped,
    Failed(Seq<char>),
}

impl View for TaskStatus {
    type V = StatusView;

    open spec fn view(&self) -> StatusView {
        match self {
            TaskStatus::Pending => StatusView::Pending,
            TaskStatus::Running => StatusView::Running,
            TaskStatus::Completed => StatusView::Completed,
            TaskStatus::Skipped => StatusView::Skipped,
            TaskStatus::Failed(m) => StatusView::Failed(m@),
        }
    }
}

impl TaskStatus {
    /// A copy of this status.
    pub fn duplicate(&self) -> (r: TaskStatus)
        ensures
            r@ == self@,
    {
        match self {
            TaskStatus::Pending => TaskStatus::Pending,
            TaskStatus::Running => TaskStatus::Running,
            TaskStatus::Completed => TaskStatus::Completed,
            TaskStatus::Skipped => TaskStatus::Skipped,
            TaskStatus::Failed(m) => TaskStatus::Failed(m.clone()),
        }
    }
}

// ---------------------------------------------------------------------------
// Statuses by task name.
// ---------------------------------------------------------------------------

/// The status of each name; a later entry for a name replaces an earlier one.
pub open spec fn status_map(v: Seq<(String, TaskStatus)>) -> Map<Seq<char>, StatusView>
    decreases v.len(),
{
    if v.len() == 0 {
        Map::empty()
    } else {
        status_map(v.drop_last()).insert(v.last().0@, v.last().1@)
    }
}

pub open spec fn distinct_keys(v: Seq<(String, TaskStatus)>) -> bool {
    forall|i: int, j: int| 0 <= i < j < v.len() ==> v[i].0@ != v[j].0@
}

pub proof fn lemma_status_lookup(v: Seq<(String, TaskStatus)>, k: Seq<char>)
    requires
        distinct_keys(v),
    ensures
        forall|j: int|
            0 <= j < v.len() && v[j].0@ == k ==> status_map(v).contains_key(k) && status_map(v)[k]
                == v[j].1@,
        (forall|j: int| 0 <= j < v.len() ==> v[j].0@ != k) ==> !status_map(v).contains_key(k),
    decreases v.len(),
{
    if v.len() > 0 {
        let d = v.drop_last();
        assert(distinct_keys(d));
        lemma_status_lookup(d, k);
        assert forall|j: int|
            0 <= j < v.len() && v[j].0@ == k implies status_map(v).contains_key(k)
            && status_map(v)[k] == v[j].1@ by {
            if j < v.len() - 1 {
                assert(d[j] == v[j]);
            }
        }
        if forall|j: int| 0 <= j < v.len() ==> v[j].0@ != k {
            assert forall|j: int| 0 <= j < d.len() implies d[j].0@ != k by {
                assert(d[j] == v[j]);
            }
        }
    }
}

pub proof fn lemma_status_update(v: Seq<(String, TaskStatus)>, j: int, e: (String, TaskStatus))
    requires
        distinct_keys(v),
        0 <= j < v.len(),
        v[j].0@ == e.0@,
    ensures
        distinct_keys(v.update(j, e)),
        status_map(v.update(j, e)) == status_map(v).insert(e.0@, e.1@),
    decreases v.len(),
{
    let u = v.update(j, e);
    assert forall|a: int, b: int| 0 <= a < b < u.len() implies u[a].0@ != u[b].0@ by {
        assert(u[a].0@ == v[a].0@);
        assert(u[b].0@ == v[b].0@);
    }
    if j == v.len() - 1 {
        assert(u.drop_last() =~= v.drop_last());
        assert(status_map(u) =~= status_map(v).insert(e.0@, e.1@));
    } else {
        let d = v.drop_last();
        assert(distinct_keys(d));
        lemma_status_update(d, j, e);
        assert(u.drop_last() =~= d.update(j, e));
        assert(v.last().0@ != e.0@);
        assert(status_map(u) =~= status_map(v).insert(e.0@, e.1@));
    }
}

/// The index of the entry for `name`, if there is one.
fn find_status(v: &Vec<(String, TaskStatus)>, name: &str) -> (r: Option<usize>)
    ensures
        r matches Some(j) ==> j < v.len() && v@[j as int].0@ == name@,
        r is None ==> forall|j: int| 0 <= j < v.len() ==> v@[j].0@ != name@,
{
    let mut i: usize = 0;
    while i < v.len()
        invariant
            i <= v.len(),
            forall|j: int| 0 <= j < i ==> v@[j].0@ != name@,
        decreases v.len() - i,
    {
        if str_eq(v[i].0.as_str(), name) {
            return Some(i);
        }
        i = i + 1;
    }
    None
}

/// Records `status` for `name`.
fn set_status(v: &mut Vec<(String, TaskStatus)>, name: &str, status: TaskStatus)
    requires
        distinct_keys(old(v)@),
    ensures
        distinct_keys(final(v)@),
        status_map(final(v)@) == status_map(old(v)@).insert(name@, status@),
{
    let key = string_of(chars_of(name).as_slice());
    match find_status(v, name) {
        Some(j) => {
            proof {
                lemma_status_update(v@, j as int, (key, status));
            }
            v.set(j, (key, status));
        },
        None => {
            let ghost before = v@;
            v.push((key, status));
            assert(v@.drop_last() =~= before);
            assert forall|a: int, b: int| 0 <= a < b < v@.len() implies v@[a].0@ != v@[b].0@ by {
                if b == v@.len() - 1 {
                    assert(v@[a] == before[a]);
                }
            }
        },
    }
}

// ---------------------------------------------------------------------------
// Whether a task's outputs are stale.
// ---------------------------------------------------------------------------

/// What was found on disk for one file: whether it exists, and when it was
/// last modified (nanoseconds since the Unix epoch), if that could be read.
#[derive(Debug, Clone, Copy)]
pub struct FileState {
    pub exists: bool,
    pub modified: Option<u128>,
}

/// The latest modification time among `files`, if any was read.
pub open spec fn newest(files: Seq<FileState>) -> Option<u128>
    decreases files.len(),
{
    if files.len() == 0 {
        None
    } else {
        let rest = newest(files.drop_last());
        match (files.last().modified, rest) {
            (Some(t), Some(r)) => Some(if t > r { t } else { r }),
            (Some(t), None) => Some(t),
            (None, _) => rest,
        }
    }
}

/// The earliest modification time among `files`, if any was read.
pub open spec fn oldest(files: Seq<FileState>) -> Option<u128>
    decreases files.len(),
{
    if files.len() == 0 {
        None
    } else {
        let rest = oldest(files.drop_last());
        match (files.last().modified, rest) {
            (Some(t), Some(r)) => Some(if t < r { t } else { r }),
            (Some(t), None) => Some(t),
            (None, _) => rest,
        }
    }
}

/// Whether a task has to run, given what was found for its input files
/// (`inputs[k]` for `file_deps[k]`) and output files (`outputs[k]` for
/// `output_deps[k]`). A task with no input files or no output files always
/// runs; so does one with a missing output; otherwise it runs when its
/// newest input is newer than its oldest output, or when either time is
/// unknown.
pub open spec fn rebuild_needed(task: TaskView, inputs: Seq<FileState>, outputs: Seq<FileState>) -> bool {
    if task.file_deps.len() == 0 || task.output_deps.len() == 0 {
        true
    } else if exists|k: int| 0 <= k < outputs.len() && !(#[trigger] outputs[k]).exists {
        true
    } else {
        match (newest(inputs), oldest(outputs)) {
            (Some(i), Some(o)) => i > o,
            _ => true,
        }
    }
}

/// Every time read; the newest is one of them and no other is later.
proof fn lemma_newest_all_read(files: Seq<FileState>)
    requires
        files.len() > 0,
        forall|i: int| 0 <= i < files.len() ==> (#[trigger] files[i]).modified is Some,
    ensures
        newest(files) is Some,
        forall|i: int| 0 <= i < files.len() ==> (#[trigger] files[i]).modified.unwrap() <= newest(files).unwrap(),
        exists|i: int| 0 <= i < files.len() && (#[trigger] files[i]).modified.unwrap() == newest(files).unwrap(),
    decreases files.len(),
{
    let n = files.len() - 1;
    let init = files.drop_last();
    assert(files.last() == files[n]);
    if files.len() == 1 {
        assert(newest(init) is None);
        assert(files[0].modified.unwrap() == newest(files).unwrap());
    } else {
        assert forall|i: int| 0 <= i < init.len() implies (#[trigger] init[i]).modified is Some by {
            assert(init[i] == files[i]);
        }
        lemma_newest_all_read(init);
        let j = choose|j: int| 0 <= j < init.len() && (#[trigger] init[j]).modified.unwrap() == newest(init).unwrap();
        assert(init[j] == files[j]);
        assert forall|i: int| 0 <= i < files.len() implies (#[trigger] files[i]).modified.unwrap() <= newest(files).unwrap() by {
            if i < n {
                assert(init[i] == files[i]);
            }
        }
        if files[n].modified.unwrap() > newest(init).unwrap() {
            assert(files[n].modified.unwrap() == newest(files).unwrap());
        } else {
            assert(files[j].modified.unwrap() == newest(files).unwrap());
        }
    }
}

/// Every time read; the oldest is one of them and no other is earlier.
proof fn lemma_oldest_all_read(files: Seq<FileState>)
    requires
        files.len() > 0,
        forall|i: int| 0 <= i < files.len() ==> (#[trigger] files[i]).modified is Some,
    ensures
        oldest(files) is Some,
        forall|i: int| 0 <= i < files.len() ==> (#[trigger] files[i]).modified.unwrap() >= oldest(files).unwrap(),
        exists|i: int| 0 <= i < files.len() && (#[trigger] files[i]).modified.unwrap() == oldest(files).unwrap(),
    decreases files.len(),
{
    let n = files.len() - 1;
    let init = files.drop_last();
    assert(files.last() == files[n]);
    if files.len() == 1 {
        assert(oldest(init) is None);
        assert(files[0].modified.unwrap() == oldest(files).unwrap());
    } else {
        assert forall|i: int| 0 <= i < init.len() implies (#[trigger] init[i]).modified is Some by {
            assert(init[i] == files[i]);
        }
        lemma_oldest_all_read(init);
        let j = choose|j: int| 0 <= j < init.len() && (#[trigger] init[j]).modified.unwrap() == oldest(init).unwrap();
        assert(init[j] == files[j]);
        assert forall|i: int| 0 <= i < files.len() implies (#[trigger] files[i]).modified.unwrap() >= oldest(files).unwrap() by {
            if i < n {
                assert(init[i] == files[i]);
            }
        }
        if files[n].modified.unwrap() < oldest(init).unwrap() {
            assert(files[n].modified.unwrap() == oldest(files).unwrap());
        } else {
            assert(files[j].modified.unwrap() == oldest(files).unwrap());
        }
    }
}

/// The newest time read, if any: none exactly when no time was read; else
/// one of the times read, and no time read is later.
proof fn lemma_newest_of_read(files: Seq<FileState>)
    ensures
        (newest(files) is None) <==> (forall|i: int| 0 <= i < files.len() ==> (#[trigger] files[i]).modified is None),
        newest(files) is Some ==> (forall|i: int|
            0 <= i < files.len() && (#[trigger] files[i]).modified is Some ==> files[i].modified.unwrap()
                <= newest(files).unwrap()) && exists|i: int|
            0 <= i < files.len() && (#[trigger] files[i]).modified == Some(newest(files).unwrap()),
    decreases files.len(),
{
    if files.len() > 0 {
        let n = files.len() - 1;
        let init = files.drop_last();
        assert(files.last() == files[n]);
        lemma_newest_of_read(init);
        assert forall|i: int| 0 <= i < n implies init[i] == files[i] by {}
        if newest(init) is Some {
            let j = choose|j: int| 0 <= j < init.len() && (#[trigger] init[j]).modified == Some(newest(init).unwrap());
            assert(init[j] == files[j]);
        }
        if newest(files) is None {
            assert forall|i: int| 0 <= i < files.len() implies (#[trigger] files[i]).modified is None by {
                if i < n {
                    assert(init[i] == files[i]);
                }
            }
        }
        if forall|i: int| 0 <= i < files.len() ==> (#[trigger] files[i]).modified is None {
            assert forall|i: int| 0 <= i < init.len() implies (#[trigger] init[i]).modified is None by {
                assert(init[i] == files[i]);
            }
        }
    }
}

/// The oldest time read, if any: none exactly when no time was read; else
/// one of the times read, and no time read is earlier.
proof fn lemma_oldest_of_read(files: Seq<FileState>)
    ensures
        (oldest(files) is None) <==> (forall|i: int| 0 <= i < files.len() ==> (#[trigger] files[i]).modified is None),
        oldest(files) is Some ==> (forall|i: int|
            0 <= i < files.len() && (#[trigger] files[i]).modified is Some ==> files[i].modified.unwrap()
                >= oldest(files).unwrap()) && exists|i: int|
            0 <= i < files.len() && (#[trigger] files[i]).modified == Some(oldest(files).unwrap()),
    decreases files.len(),
{
    if files.len() > 0 {
        let n = files.len() - 1;
        let init = files.drop_last();
        assert(files.last() == files[n]);
        lemma_oldest_of_read(init);
        assert forall|i: int| 0 <= i < n implies init[i] == files[i] by {}
        if oldest(init) is Some {
            let j = choose|j: int| 0 <= j < init.len() && (#[trigger] init[j]).modified == Some(oldest(init).unwrap());
            assert(init[j] == files[j]);
        }
        if oldest(files) is None {
            assert forall|i: int| 0 <= i < files.len() implies (#[trigger] files[i]).modified is None by {
                if i < n {
                    assert(init[i] == files[i]);
                }
            }
        }
        if forall|i: int| 0 <= i < files.len() ==> (#[trigger] files[i]).modified is None {
            assert forall|i: int| 0 <= i < init.len() implies (#[trigger] init[i]).modified is None by {
                assert(init[i] == files[i]);
            }
        }
    }
}

/// With input and output files declared and every output present, a task
/// runs exactly when no input time could be read, or no output time could
/// be read, or some input read is newer than some output read; it is
/// skipped only when every time read says its outputs are up to date.
pub proof fn a_task_runs_when_stale_or_unknown(task: TaskView, inputs: Seq<FileState>, outputs: Seq<FileState>)
    requires
        task.file_deps.len() > 0,
        task.output_deps.len() > 0,
        forall|k: int| 0 <= k < outputs.len() ==> (#[trigger] outputs[k]).exists,
    ensures
        rebuild_needed(task, inputs, outputs) <==> (forall|a: int|
            0 <= a < inputs.len() ==> (#[trigger] inputs[a]).modified is None) || (forall|b: int|
            0 <= b < outputs.len() ==> (#[trigger] outputs[b]).modified is None) || exists|a: int, b: int|
            0 <= a < inputs.len() && 0 <= b < outputs.len() && (#[trigger] inputs[a]).modified is Some
                && (#[trigger] outputs[b]).modified is Some && inputs[a].modified.unwrap()
                > outputs[b].modified.unwrap(),
{
    lemma_newest_of_read(inputs);
    lemma_oldest_of_read(outputs);
    assert(!exists|k: int| 0 <= k < outputs.len() && !(#[trigger] outputs[k]).exists);
    if newest(inputs) is Some && oldest(outputs) is Some {
        let a = choose|i: int| 0 <= i < inputs.len() && (#[trigger] inputs[i]).modified == Some(newest(inputs).unwrap());
        let b = choose|i: int| 0 <= i < outputs.len() && (#[trigger] outputs[i]).modified == Some(oldest(outputs).unwrap());
        if newest(inputs).unwrap() > oldest(outputs).unwrap() {
            assert(inputs[a].modified.unwrap() > outputs[b].modified.unwrap());
        }
    }
}

/// A task with a missing output file runs, whatever the times say.
pub proof fn a_missing_output_forces_a_rebuild(
    task: TaskView,
    inputs: Seq<FileState>,
    outputs: Seq<FileState>,
    k: int,
)
    requires
        0 <= k < outputs.len(),
        !outputs[k].exists,
    ensures
        rebuild_needed(task, inputs, outputs),
{
}

/// A task with no input files, or no output files, always runs.
pub proof fn a_task_without_files_always_runs(task: TaskView, inputs: Seq<FileState>, outputs: Seq<FileState>)
    requires
        task.file_deps.len() == 0 || task.output_deps.len() == 0,
    ensures
        rebuild_needed(task, inputs, outputs),
{
}

/// With every file present and every time read, a task runs exactly when
/// some input file is newer than some output file.
pub proof fn a_task_runs_when_an_input_is_newer_than_an_output(
    task: TaskView,
    inputs: Seq<FileState>,
    outputs: Seq<FileState>,
)
    requires
        task.file_deps.len() > 0,
        task.output_deps.len() > 0,
        inputs.len() > 0,
        outputs.len() > 0,
        forall|k: int| 0 <= k < inputs.len() ==> (#[trigger] inputs[k]).modified is Some,
        forall|k: int| 0 <= k < outputs.len() ==> (#[trigger] outputs[k]).exists && outputs[k].modified is Some,
    ensures
        rebuild_needed(task, inputs, outputs) <==> exists|a: int, b: int|
            0 <= a < inputs.len() && 0 <= b < outputs.len() && (#[trigger] inputs[a]).modified.unwrap()
                > (#[trigger] outputs[b]).modified.unwrap(),
{
    lemma_newest_all_read(inputs);
    lemma_oldest_all_read(outputs);
    let a = choose|i: int| 0 <= i < inputs.len() && (#[trigger] inputs[i]).modified.unwrap() == newest(inputs).unwrap();
    let b = choose|i: int| 0 <= i < outputs.len() && (#[trigger] outputs[i]).modified.unwrap() == oldest(outputs).unwrap();
    assert(!exists|k: int| 0 <= k < outputs.len() && !(#[trigger] outputs[k]).exists);
    if newest(inputs).unwrap() > oldest(outputs).unwrap() {
        assert(inputs[a].modified.unwrap() > outputs[b].modified.unwrap());
    }
}

fn newest_exec(files: &Vec<FileState>) -> (r: Option<u128>)
    ensures
        r == newest(files@),
{
    let mut best: Option<u128> = None;
    let mut k: usize = 0;
    while k < files.len()
        invariant
            k <= files.len(),
            best == newest(files@.take(k as int)),
        decreases files.len() - k,
    {
        assert(files@.take(k + 1).drop_last() =~= files@.take(k as int));
        best = match (files[k].modified, best) {
            (Some(t), Some(r)) => Some(if t > r { t } else { r }),
            (Some(t), None) => Some(t),
            (None, b) => b,
        };
        k = k + 1;
    }
    assert(files@.take(k as int) =~= files@);
    best
}

fn oldest_exec(files: &Vec<FileState>) -> (r: Option<u128>)
    ensures
        r == oldest(files@),
{
    let mut best: Option<u128> = None;
    let mut k: usize = 0;
    while k < files.len()
        invariant
            k <= files.len(),
            best == oldest(files@.take(k as int)),
        decreases files.len() - k,
    {
        assert(files@.take(k + 1).drop_last() =~= files@.take(k as int));
        best = match (files[k].modified, best) {
            (Some(t), Some(r)) => Some(if t < r { t } else { r }),
            (Some(t), None) => Some(t),
            (None, b) => b,
        };
        k = k + 1;
    }
    assert(files@.take(k as int) =~= files@);
    best
}

// ---------------------------------------------------------------------------
// The run.
// ---------------------------------------------------------------------------

/// Whether every name in `deps` is in `done`.
pub open spec fn deps_met(deps: Seq<Seq<char>>, done: Seq<Seq<char>>) -> bool {
    forall|k: int| 0 <= k < deps.len() ==> done.contains(#[trigger] deps[k])
}

/// The blocked tasks whose dependencies are all done (in order), and the rest.
pub open spec fn split_unblocked(tasks: Seq<TaskView>, done: Seq<Seq<char>>, blocked: Seq<nat>) -> (
    Seq<nat>,
    Seq<nat>,
)
    decreases blocked.len(),
{
    if blocked.len() == 0 {
        (Seq::empty(), Seq::empty())
    } else {
        let parts = split_unblocked(tasks, done, blocked.drop_last());
        let i = blocked.last();
        if deps_met(tasks[i as int].task_deps, done) {
            (parts.0.push(i), parts.1)
        } else {
            (parts.0, parts.1.push(i))
        }
    }
}

/// The tasks with no dependencies (in order), and the rest, among the first
/// `n`.
pub open spec fn initial_split(tasks: Seq<TaskView>, n: nat) -> (Seq<nat>, Seq<nat>)
    decreases n,
{
    if n == 0 {
        (Seq::empty(), Seq::empty())
    } else {
        let parts = initial_split(tasks, (n - 1) as nat);
        let i = (n - 1) as nat;
        if tasks[i as int].task_deps.len() == 0 {
            (parts.0.push(i), parts.1)
        } else {
            (parts.0, parts.1.push(i))
        }
    }
}

/// `base` with every one of the first `n` tasks recorded as pending.
pub open spec fn pending_map(
    base: Map<Seq<char>, StatusView>,
    tasks: Seq<TaskView>,
    n: nat,
) -> Map<Seq<char>, StatusView>
    decreases n,
{
    if n == 0 {
        base
    } else {
        pending_map(base, tasks, (n - 1) as nat).insert(tasks[n - 1].name, StatusView::Pending)
    }
}

/// The state of a run.
#[verifier::ext_equal]
pub struct RunView {
    /// Tasks whose dependencies are done, in the order they will start.
    pub ready: Seq<nat>,
    /// Tasks still waiting on a dependency.
    pub blocked: Seq<nat>,
    /// Names of the tasks that completed or were skipped, each once.
    pub completed: Seq<Seq<char>>,
    /// How many completions and skips have been counted.
    pub completed_count: nat,
    /// Names of the tasks whose processes are running, each once.
    pub active: Seq<Seq<char>>,
    pub statuses: Map<Seq<char>, StatusView>,
    /// Whether the run is between completions (the top of its loop) rather
    /// than starting tasks.
    pub at_top: bool,
    /// The tasks handed out to start, so far.
    pub dispatched: Set<nat>,
}

/// The state a run starts in, over the statuses recorded before it.
pub open spec fn initial_run(tasks: Seq<TaskView>, base: Map<Seq<char>, StatusView>) -> RunView {
    let parts = initial_split(tasks, tasks.len());
    RunView {
        ready: parts.0,
        blocked: parts.1,
        completed: Seq::empty(),
        completed_count: 0,
        active: Seq::empty(),
        statuses: pending_map(base, tasks, tasks.len()),
        at_top: true,
        dispatched: Set::empty(),
    }
}

/// The blocked tasks whose dependencies are now done move to the end of the
/// ready queue, keeping their order.
pub open spec fn unblock(tasks: Seq<TaskView>, s: RunView) -> RunView {
    let parts = split_unblocked(tasks, s.completed, s.blocked);
    RunView { ready: s.ready + parts.0, blocked: parts.1, ..s }
}

/// What the caller is to do next.
#[derive(Debug, Clone, Copy, PartialEq, Eq, Structural)]
pub enum RunStep {
    /// Every task is done: the run succeeded.
    Finished,
    /// Check whether the task at this index has to run, and report it back.
    CheckRebuild(usize),
    /// Nothing more can start now: wait for a running task to end.
    AwaitCompletion,
}

/// The step a run takes from `s`, with at most `max` tasks running at once.
pub open spec fn next_step_of(tasks: Seq<TaskView>, max: nat, s: RunView) -> (RunView, RunStep) {
    if s.completed_count >= tasks.len() {
        (s, RunStep::Finished)
    } else if s.active.len() < max && s.ready.len() > 0 {
        (
            RunView {
                ready: s.ready.drop_first(),
                at_top: false,
                dispatched: s.dispatched.insert(s.ready[0]),
                ..s
            },
            RunStep::CheckRebuild(s.ready[0] as usize),
        )
    } else {
        (RunView { at_top: false, ..s }, RunStep::AwaitCompletion)
    }
}

/// A task counted as done: recorded with `status`, added to the completed
/// names, and its dependants unblocked.
pub open spec fn count_done(tasks: Seq<TaskView>, s: RunView, name: Seq<char>, status: StatusView) -> RunView {
    unblock(
        tasks,
        RunView {
            statuses: s.statuses.insert(name, status),
            completed: insert_name(s.completed, name),
            completed_count: s.completed_count + 1,
            ..s
        },
    )
}

/// After the check of task `i`: one that has to run becomes active; one that
/// is up to date is skipped.
pub open spec fn after_check(tasks: Seq<TaskView>, s: RunView, i: nat, needs: bool) -> RunView {
    if needs {
        RunView { active: insert_name(s.active, tasks[i as int].name), ..s }
    } else {
        count_done(tasks, s, tasks[i as int].name, StatusView::Skipped)
    }
}

/// After the task named `name` finished successfully.
pub open spec fn after_finish(tasks: Seq<TaskView>, s: RunView, name: Seq<char>) -> RunView {
    count_done(
        tasks,
        RunView { active: remove_name(s.active, name), at_top: true, ..s },
        name,
        StatusView::Completed,
    )
}

/// The first dependency not recorded as completed or skipped.
pub open spec fn first_unmet(statuses: Map<Seq<char>, StatusView>, deps: Seq<Seq<char>>) -> Option<
    Seq<char>,
>
    decreases deps.len(),
{
    if deps.len() == 0 {
        None
    } else {
        let d = deps[0];
        if statuses.contains_key(d) && (statuses[d] is Completed || statuses[d] is Skipped) {
            first_unmet(statuses, deps.drop_first())
        } else {
            Some(d)
        }
    }
}

pub open spec fn unmet_message(dep: Seq<char>, task: Seq<char>) -> Seq<char> {
    "Dependency "@ + dep + " not completed for task "@ + task
}

/// What a run keeps true: queued tasks exist and are queued once, are not
/// yet handed out, and ready ones have their dependencies done.
pub open spec fn run_wf(tasks: Seq<TaskView>, s: RunView) -> bool {
    &&& forall|k: int| 0 <= k < s.ready.len() ==> (#[trigger] s.ready[k]) < tasks.len()
    &&& forall|k: int| 0 <= k < s.blocked.len() ==> (#[trigger] s.blocked[k]) < tasks.len()
    &&& (s.ready + s.blocked).no_duplicates()
    &&& forall|k: int|
        0 <= k < s.ready.len() ==> deps_met(tasks[s.ready[k] as int].task_deps, s.completed)
    &&& forall|k: int| 0 <= k < s.ready.len() ==> !s.dispatched.contains(#[trigger] s.ready[k])
    &&& forall|k: int| 0 <= k < s.blocked.len() ==> !s.dispatched.contains(#[trigger] s.blocked[k])
    &&& s.completed.no_duplicates()
    &&& s.active.no_duplicates()
}

/// Runs a set of tasks in dependency order, at most `max_parallel` at once.
pub struct TaskScheduler {
    tasks: Vec<Task>,
    statuses: Vec<(String, TaskStatus)>,
    max_parallel: usize,
    tui_mode: bool,
    ready: Vec<usize>,
    blocked: Vec<usize>,
    completed: Vec<String>,
    completed_count: usize,
    active: Vec<String>,
    at_top: bool,
    dispatched: Ghost<Set<nat>>,
}

pub open spec fn index_views(v: Seq<usize>) -> Seq<nat> {
    v.map_values(|i: usize| i as nat)
}

impl TaskScheduler {
    pub closed spec fn task_views(&self) -> Seq<TaskView> {
        self.tasks@.map_values(|t: Task| t@)
    }

    pub closed spec fn max_view(&self) -> nat {
        self.max_parallel as nat
    }

    pub closed spec fn tui_view(&self) -> bool {
        self.tui_mode
    }

    pub closed spec fn run_view(&self) -> RunView {
        RunView {
            ready: index_views(self.ready@),
            blocked: index_views(self.blocked@),
            completed: string_views(self.completed@),
            completed_count: self.completed_count as nat,
            active: string_views(self.active@),
            statuses: status_map(self.statuses@),
            at_top: self.at_top,
            dispatched: self.dispatched@,
        }
    }

    /// Well-formed: the run keeps [`run_wf`], and the bookkeeping fits.
    pub closed spec fn wf(&self) -> bool {
        &&& run_wf(self.task_views(), self.run_view())
        &&& distinct_keys(self.statuses@)
    }

    /// A scheduler for `tasks`; the run has not started.
    pub fn new(tasks: Vec<Task>, max_parallel: usize, tui_mode: bool) -> (r: TaskScheduler)
        ensures
            r.wf(),
            r.task_views() == tasks@.map_values(|t: Task| t@),
            r.max_view() == max_parallel,
            r.tui_view() == tui_mode,
            r.run_view() == (RunView {
                ready: Seq::empty(),
                blocked: Seq::empty(),
                completed: Seq::empty(),
                completed_count: 0,
                active: Seq::empty(),
                statuses: Map::empty(),
                at_top: true,
                dispatched: Set::empty(),
            }),
    {
        let r = TaskScheduler {
            tasks,
            statuses: Vec::new(),
            max_parallel,
            tui_mode,
            ready: Vec::new(),
            blocked: Vec::new(),
            completed: Vec::new(),
            completed_count: 0,
            active: Vec::new(),
            at_top: true,
            dispatched: Ghost(Set::empty()),
        };
        assert(r.run_view().ready =~= Seq::<nat>::empty());
        assert(r.run_view().blocked =~= Seq::<nat>::empty());
        assert(r.run_view().completed =~= Seq::<Seq<char>>::empty());
        assert(r.run_view().active =~= Seq::<Seq<char>>::empty());
        assert((r.run_view().ready + r.run_view().blocked) =~= Seq::<nat>::empty());
        r
    }
}


// ---------------------------------------------------------------------------
// What every step keeps.
// ---------------------------------------------------------------------------

pub proof fn lemma_no_dup_parts(a: Seq<nat>, b: Seq<nat>)
    requires
        (a + b).no_duplicates(),
    ensures
        a.no_duplicates(),
        b.no_duplicates(),
        forall|x: nat| a.contains(x) ==> !b.contains(x),
{
    let c = a + b;
    assert forall|i: int, j: int| 0 <= i < a.len() && 0 <= j < a.len() && i != j implies a[i]
        != a[j] by {
        assert(c[i] == a[i] && c[j] == a[j]);
    }
    assert forall|i: int, j: int| 0 <= i < b.len() && 0 <= j < b.len() && i != j implies b[i]
        != b[j] by {
        assert(c[a.len() + i] == b[i] && c[a.len() + j] == b[j]);
    }
    assert forall|x: nat| a.contains(x) implies !b.contains(x) by {
        if b.contains(x) {
            let i = choose|i: int| 0 <= i < a.len() && a[i] == x;
            let j = choose|j: int| 0 <= j < b.len() && b[j] == x;
            assert(c[i] == x && c[a.len() + j] == x);
        }
    }
}

pub proof fn lemma_no_dup_join(a: Seq<nat>, b: Seq<nat>)
    requires
        a.no_duplicates(),
        b.no_duplicates(),
        forall|x: nat| a.contains(x) ==> !b.contains(x),
    ensures
        (a + b).no_duplicates(),
{
    let c = a + b;
    assert forall|i: int, j: int| 0 <= i < c.len() && 0 <= j < c.len() && i != j implies c[i]
        != c[j] by {
        if i < a.len() && j >= a.len() {
            assert(a.contains(c[i]));
            assert(b[j - a.len()] == c[j]);
        } else if j < a.len() && i >= a.len() {
            assert(a.contains(c[j]));
            assert(b[i - a.len()] == c[i]);
        } else if i >= a.len() {
            assert(b[i - a.len()] == c[i] && b[j - a.len()] == c[j]);
        }
    }
}

pub proof fn lemma_deps_met_grows(deps: Seq<Seq<char>>, done: Seq<Seq<char>>, more: Seq<Seq<char>>)
    requires
        deps_met(deps, done),
        forall|x: Seq<char>| done.contains(x) ==> more.contains(x),
    ensures
        deps_met(deps, more),
{
    assert forall|k: int| 0 <= k < deps.len() implies more.contains(#[trigger] deps[k]) by {
        assert(done.contains(deps[k]));
    }
}

pub proof fn lemma_split_unblocked(tasks: Seq<TaskView>, done: Seq<Seq<char>>, blocked: Seq<nat>)
    ensures
        forall|x: nat| #[trigger]
            split_unblocked(tasks, done, blocked).0.contains(x) ==> blocked.contains(x) && deps_met(
                tasks[x as int].task_deps,
                done,
            ),
        forall|x: nat| #[trigger]
            split_unblocked(tasks, done, blocked).1.contains(x) ==> blocked.contains(x),
        blocked.no_duplicates() ==> split_unblocked(tasks, done, blocked).0.no_duplicates()
            && split_unblocked(tasks, done, blocked).1.no_duplicates() && forall|x: nat| #[trigger]
            split_unblocked(tasks, done, blocked).0.contains(x) ==> !split_unblocked(
                tasks,
                done,
                blocked,
            ).1.contains(x),
    decreases blocked.len(),
{
    if blocked.len() > 0 {
        let d = blocked.drop_last();
        lemma_split_unblocked(tasks, done, d);
        let q = split_unblocked(tasks, done, d);
        let i = blocked.last();
        assert forall|x: nat| d.contains(x) implies blocked.contains(x) by {
            let j = choose|j: int| 0 <= j < d.len() && d[j] == x;
            assert(blocked[j] == x);
        }
        assert(blocked.contains(i)) by {
            assert(blocked[blocked.len() - 1] == i);
        }
        if blocked.no_duplicates() {
            assert(d.no_duplicates());
            assert(!d.contains(i)) by {
                if d.contains(i) {
                    let j = choose|j: int| 0 <= j < d.len() && d[j] == i;
                    assert(blocked[j] == blocked[blocked.len() - 1]);
                }
            }
            assert(!q.0.contains(i));
            assert(!q.1.contains(i));
            let p = split_unblocked(tasks, done, blocked);
            if deps_met(tasks[i as int].task_deps, done) {
                assert(p.0 == q.0.push(i));
                assert forall|x: nat| #[trigger] p.0.contains(x) implies !p.1.contains(x) by {
                    let j = choose|j: int| 0 <= j < p.0.len() && p.0[j] == x;
                    if j < q.0.len() {
                        assert(q.0[j] == x);
                        assert(q.0.contains(x));
                    }
                }
            } else {
                assert(p.1 == q.1.push(i));
                assert forall|x: nat| #[trigger] p.0.contains(x) implies !p.1.contains(x) by {
                    if p.1.contains(x) {
                        let j = choose|j: int| 0 <= j < p.1.len() && p.1[j] == x;
                        if j < q.1.len() {
                            assert(q.1[j] == x);
                            assert(q.1.contains(x));
                        }
                    }
                }
            }
        }
    }
}

pub proof fn lemma_initial_split(tasks: Seq<TaskView>, n: nat)
    requires
        n <= tasks.len(),
    ensures
        forall|x: nat| #[trigger] initial_split(tasks, n).0.contains(x) ==> x < n && tasks[x as int].task_deps.len() == 0,
        forall|x: nat| #[trigger] initial_split(tasks, n).1.contains(x) ==> x < n,
        (initial_split(tasks, n).0 + initial_split(tasks, n).1).no_duplicates(),
    decreases n,
{
    if n > 0 {
        let m = (n - 1) as nat;
        lemma_initial_split(tasks, m);
        let q = initial_split(tasks, m);
        lemma_no_dup_parts(q.0, q.1);
        let p = initial_split(tasks, n);
        assert(!q.0.contains(m) && !q.1.contains(m));
        lemma_no_dup_join(p.0, p.1);
    }
}

pub proof fn lemma_count_done_wf(tasks: Seq<TaskView>, s: RunView, name: Seq<char>, st: StatusView)
    requires
        run_wf(tasks, s),
    ensures
        run_wf(tasks, count_done(tasks, s, name, st)),
        forall|x: Seq<char>| s.completed.contains(x) ==> count_done(
            tasks,
            s,
            name,
            st,
        ).completed.contains(x),
        count_done(tasks, s, name, st).completed.contains(name),
{
    let done = insert_name(s.completed, name);
    lemma_insert_name(s.completed, name);
    let s1 = RunView {
        statuses: s.statuses.insert(name, st),
        completed: done,
        completed_count: s.completed_count + 1,
        ..s
    };
    lemma_split_unblocked(tasks, done, s.blocked);
    lemma_no_dup_parts(s.ready, s.blocked);
    let parts = split_unblocked(tasks, done, s.blocked);
    let r = count_done(tasks, s, name, st);
    assert(r.ready == s.ready + parts.0);
    assert(r.blocked == parts.1);
    assert forall|x: nat| s.ready.contains(x) implies !parts.0.contains(x) by {}
    lemma_no_dup_join(s.ready, parts.0);
    assert forall|x: nat| (s.ready + parts.0).contains(x) implies !parts.1.contains(x) by {
        let j = choose|j: int| 0 <= j < (s.ready + parts.0).len() && (s.ready + parts.0)[j] == x;
        if j < s.ready.len() {
            assert(s.ready[j] == x);
            assert(s.ready.contains(x));
        } else {
            assert(parts.0[j - s.ready.len()] == x);
            assert(parts.0.contains(x));
        }
    }
    lemma_no_dup_join(s.ready + parts.0, parts.1);
    assert forall|k: int| 0 <= k < r.ready.len() implies deps_met(
        tasks[r.ready[k] as int].task_deps,
        r.completed,
    ) && r.ready[k] < tasks.len() && !r.dispatched.contains(r.ready[k]) by {
        if k < s.ready.len() {
            assert(r.ready[k] == s.ready[k]);
            lemma_deps_met_grows(tasks[s.ready[k] as int].task_deps, s.completed, done);
        } else {
            assert(r.ready[k] == parts.0[k - s.ready.len()]);
            assert(parts.0.contains(r.ready[k]));
            let x = r.ready[k];
            let j = choose|j: int| 0 <= j < s.blocked.len() && s.blocked[j] == x;
            assert(s.blocked[j] < tasks.len());
        }
    }
    assert forall|k: int| 0 <= k < r.blocked.len() implies r.blocked[k] < tasks.len()
        && !r.dispatched.contains(r.blocked[k]) by {
        assert(parts.1.contains(r.blocked[k]));
        let x = r.blocked[k];
        let j = choose|j: int| 0 <= j < s.blocked.len() && s.blocked[j] == x;
        assert(s.blocked[j] < tasks.len());
    }
}

/// The step a run takes keeps it well formed, leaves the completed names
/// alone, and hands out a task only when every task it depends on has
/// completed or been skipped, and only if it was never handed out before.
pub proof fn lemma_next_step_wf(tasks: Seq<TaskView>, max: nat, s: RunView)
    requires
        run_wf(tasks, s),
        tasks.len() <= usize::MAX,
    ensures
        run_wf(tasks, next_step_of(tasks, max, s).0),
        next_step_of(tasks, max, s).0.completed == s.completed,
        next_step_of(tasks, max, s).1 matches RunStep::CheckRebuild(i) ==> i < tasks.len() && deps_met(
            tasks[i as int].task_deps,
            s.completed,
        ) && !s.dispatched.contains(i as nat),
{
    if !(s.completed_count >= tasks.len()) && s.active.len() < max && s.ready.len() > 0 {
        let r = next_step_of(tasks, max, s).0;
        let i = s.ready[0];
        lemma_no_dup_parts(s.ready, s.blocked);
        assert(r.ready + r.blocked =~= (s.ready + s.blocked).drop_first());
        assert forall|k: int| 0 <= k < r.ready.len() implies !r.dispatched.contains(
            #[trigger] r.ready[k],
        ) by {
            assert(r.ready[k] == s.ready[k + 1]);
            assert((s.ready + s.blocked)[0] != (s.ready + s.blocked)[k + 1]);
        }
        assert forall|k: int| 0 <= k < r.blocked.len() implies !r.dispatched.contains(
            #[trigger] r.blocked[k],
        ) by {
            assert(s.ready.contains(i));
            assert(!s.blocked.contains(i));
            assert(s.blocked.contains(r.blocked[k]));
        }
        assert forall|k: int| 0 <= k < r.ready.len() implies deps_met(
            tasks[r.ready[k] as int].task_deps,
            r.completed,
        ) && r.ready[k] < tasks.len() by {
            assert(r.ready[k] == s.ready[k + 1]);
        }
    }
}


pub proof fn lemma_status_map_views(a: Seq<(String, TaskStatus)>, b: Seq<(String, TaskStatus)>)
    requires
        a.len() == b.len(),
        forall|i: int| 0 <= i < a.len() ==> a[i].0@ == b[i].0@ && a[i].1@ == b[i].1@,
    ensures
        status_map(a) == status_map(b),
    decreases a.len(),
{
    if a.len() > 0 {
        lemma_status_map_views(a.drop_last(), b.drop_last());
    }
}

/// The second whitespace-separated word of a failure message, which names
/// the task in `Task <name> failed ...`.
pub open spec fn failed_name_of(message: Seq<char>) -> Option<Seq<char>> {
    if words_s(message).len() > 1 {
        Some(words_s(message)[1])
    } else {
        None
    }
}

impl TaskScheduler {
    fn unblock_exec(&mut self)
        requires
            forall|k: int| 0 <= k < old(self).blocked.len() ==> old(self).blocked@[k] < old(self).tasks.len(),
        ensures
            final(self).run_view() == unblock(old(self).task_views(), old(self).run_view()),
            final(self).tasks == old(self).tasks,
            final(self).statuses == old(self).statuses,
            final(self).max_parallel == old(self).max_parallel,
            final(self).tui_mode == old(self).tui_mode,
    {
        let ghost tasks = self.task_views();
        let ghost s0 = self.run_view();
        let ghost done = s0.completed;
        let ghost blocked = s0.blocked;
        let mut kept: Vec<usize> = Vec::new();
        let mut j: usize = 0;
        let n = self.blocked.len();
        while j < n
            invariant
                n == self.blocked.len(),
                j <= n,
                tasks == self.task_views(),
                blocked == index_views(self.blocked@),
                done == string_views(self.completed@),
                forall|k: int| 0 <= k < self.blocked.len() ==> self.blocked@[k] < self.tasks.len(),
                index_views(self.ready@) == s0.ready + split_unblocked(tasks, done, blocked.take(j as int)).0,
                index_views(kept@) == split_unblocked(tasks, done, blocked.take(j as int)).1,
                self.tasks == old(self).tasks,
                self.statuses == old(self).statuses,
                self.completed == old(self).completed,
                self.completed_count == old(self).completed_count,
                self.active == old(self).active,
                self.at_top == old(self).at_top,
                self.dispatched == old(self).dispatched,
                self.max_parallel == old(self).max_parallel,
                self.tui_mode == old(self).tui_mode,
            decreases n - j,
        {
            let idx = self.blocked[j];
            assert(blocked.take(j + 1).drop_last() =~= blocked.take(j as int));
            assert(blocked.take(j + 1).last() == idx as nat);
            let met = self.deps_done(idx);
            let ghost before_ready = index_views(self.ready@);
            let ghost before_kept = index_views(kept@);
            if met {
                self.ready.push(idx);
                assert(index_views(self.ready@) =~= before_ready.push(idx as nat));
            } else {
                kept.push(idx);
                assert(index_views(kept@) =~= before_kept.push(idx as nat));
            }
            j = j + 1;
        }
        assert(blocked.take(n as int) =~= blocked);
        self.blocked = kept;
    }

    /// Whether every dependency of task `idx` is among the completed names.
    fn deps_done(&self, idx: usize) -> (r: bool)
        requires
            idx < self.tasks.len(),
        ensures
            r == deps_met(self.task_views()[idx as int].task_deps, self.run_view().completed),
    {
        let deps = &self.tasks[idx].task_deps;
        let ghost dv = self.task_views()[idx as int].task_deps;
        assert(dv == string_views(deps@));
        let mut k: usize = 0;
        while k < deps.len()
            invariant
                k <= deps.len(),
                idx < self.tasks.len(),
                dv == string_views(deps@),
                dv == self.task_views()[idx as int].task_deps,
                forall|m: int| 0 <= m < k ==> self.run_view().completed.contains(#[trigger] dv[m]),
            decreases deps.len() - k,
        {
            assert(dv[k as int] == deps@[k as int]@);
            if !contains_string(&self.completed, deps[k].as_str()) {
                assert(!self.run_view().completed.contains(dv[k as int]));
                return false;
            }
            k = k + 1;
        }
        true
    }

    fn count_done_exec(&mut self, name: &str, status: TaskStatus)
        requires
            old(self).wf(),
            old(self).completed_count < usize::MAX,
        ensures
            final(self).wf(),
            final(self).run_view() == count_done(
                old(self).task_views(),
                old(self).run_view(),
                name@,
                status@,
            ),
            final(self).tasks == old(self).tasks,
            final(self).max_parallel == old(self).max_parallel,
            final(self).tui_mode == old(self).tui_mode,
    {
        proof {
            lemma_count_done_wf(self.task_views(), self.run_view(), name@, status@);
            lemma_insert_name(self.run_view().completed, name@);
        }
        set_status(&mut self.statuses, name, status);
        insert_string(&mut self.completed, name);
        self.completed_count = self.completed_count + 1;
        assert forall|k: int| 0 <= k < self.blocked.len() implies self.blocked@[k] < self.tasks.len() by {
            assert(index_views(self.blocked@)[k] == self.blocked@[k] as nat);
        }
        self.unblock_exec();
        assert(self.run_view() =~= count_done(old(self).task_views(), old(self).run_view(), name@, status@));
    }

    /// Starts a run over the statuses recorded so far: every task pending,
    /// the ones with no dependencies ready in their order, the rest blocked.
    pub fn begin_run(&mut self)
        requires
            old(self).wf(),
        ensures
            final(self).wf(),
            final(self).task_views() == old(self).task_views(),
            final(self).max_view() == old(self).max_view(),
            final(self).tui_view() == old(self).tui_view(),
            final(self).run_view() == initial_run(old(self).task_views(), old(self).run_view().statuses),
    {
        let ghost tasks = self.task_views();
        let ghost base = self.run_view().statuses;
        self.ready = Vec::new();
        self.blocked = Vec::new();
        self.completed = Vec::new();
        self.completed_count = 0;
        self.active = Vec::new();
        self.at_top = true;
        self.dispatched = Ghost(Set::empty());
        let n = self.tasks.len();
        let mut i: usize = 0;
        assert(index_views(self.ready@) =~= Seq::<nat>::empty());
        assert(index_views(self.blocked@) =~= Seq::<nat>::empty());
        while i < n
            invariant
                n == self.tasks.len(),
                i <= n,
                tasks == self.task_views(),
                distinct_keys(self.statuses@),
                status_map(self.statuses@) == pending_map(base, tasks, i as nat),
                index_views(self.ready@) == initial_split(tasks, i as nat).0,
                index_views(self.blocked@) == initial_split(tasks, i as nat).1,
                self.completed@.len() == 0,
                self.completed_count == 0,
                self.active@.len() == 0,
                self.at_top,
                self.dispatched@ == Set::<nat>::empty(),
                self.tasks == old(self).tasks,
                self.max_parallel == old(self).max_parallel,
                self.tui_mode == old(self).tui_mode,
            decreases n - i,
        {
            assert(tasks[i as int] == self.tasks@[i as int]@);
            set_status(&mut self.statuses, self.tasks[i].name.as_str(), TaskStatus::Pending);
            let ghost before_ready = index_views(self.ready@);
            let ghost before_blocked = index_views(self.blocked@);
            if self.tasks[i].task_deps.len() == 0 {
                self.ready.push(i);
                assert(index_views(self.ready@) =~= before_ready.push(i as nat));
            } else {
                self.blocked.push(i);
                assert(index_views(self.blocked@) =~= before_blocked.push(i as nat));
            }
            i = i + 1;
        }
        proof {
            lemma_initial_split(tasks, n as nat);
            let r = self.run_view();
            assert(r.completed =~= Seq::<Seq<char>>::empty());
            assert(r.active =~= Seq::<Seq<char>>::empty());
            assert forall|k: int| 0 <= k < r.ready.len() implies (#[trigger] r.ready[k]) < tasks.len()
                && deps_met(tasks[r.ready[k] as int].task_deps, r.completed) by {
                assert(r.ready.contains(r.ready[k]));
            }
            assert forall|k: int| 0 <= k < r.blocked.len() implies (#[trigger] r.blocked[k]) < tasks.len() by {
                assert(r.blocked.contains(r.blocked[k]));
            }
            assert(r =~= initial_run(tasks, base));
        }
    }

    /// What to do next. A task is handed out only when the ready queue has
    /// one and fewer than the parallel limit are running; the ready queue
    /// holds only tasks whose dependencies are all done.
    pub fn next_step(&mut self) -> (r: RunStep)
        requires
            old(self).wf(),
        ensures
            final(self).wf(),
            final(self).task_views() == old(self).task_views(),
            final(self).max_view() == old(self).max_view(),
            final(self).tui_view() == old(self).tui_view(),
            (final(self).run_view(), r) == next_step_of(
                old(self).task_views(),
                old(self).max_view(),
                old(self).run_view(),
            ),
            r matches RunStep::CheckRebuild(i) ==> i < old(self).task_views().len() && deps_met(
                old(self).task_views()[i as int].task_deps,
                old(self).run_view().completed,
            ) && !old(self).run_view().dispatched.contains(i as nat),
    {
        let n = self.tasks.len();
        proof {
            lemma_next_step_wf(self.task_views(), self.max_view(), self.run_view());
        }
        if self.completed_count >= self.tasks.len() {
            return RunStep::Finished;
        }
        if self.active.len() < self.max_parallel && self.ready.len() > 0 {
            let ghost before = index_views(self.ready@);
            let i = self.ready.remove(0);
            assert(index_views(self.ready@) =~= before.drop_first());
            self.at_top = false;
            self.dispatched = Ghost(self.dispatched@.insert(i as nat));
            assert(self.run_view() =~= next_step_of(old(self).task_views(), old(self).max_view(), old(self).run_view()).0);
            return RunStep::CheckRebuild(i);
        }
        self.at_top = false;
        assert(self.run_view() =~= next_step_of(old(self).task_views(), old(self).max_view(), old(self).run_view()).0);
        RunStep::AwaitCompletion
    }

    /// Reports the check of task `index`: one that has to run is now
    /// running; one that is up to date is recorded as skipped and counted as
    /// done.
    pub fn on_rebuild_checked(&mut self, index: usize, needs_rebuild: bool)
        requires
            old(self).wf(),
            index < old(self).task_views().len(),
            !needs_rebuild ==> old(self).run_view().completed_count < usize::MAX,
        ensures
            final(self).wf(),
            final(self).task_views() == old(self).task_views(),
            final(self).max_view() == old(self).max_view(),
            final(self).tui_view() == old(self).tui_view(),
            final(self).run_view() == after_check(
                old(self).task_views(),
                old(self).run_view(),
                index as nat,
                needs_rebuild,
            ),
    {
        let ghost tasks = self.task_views();
        assert(tasks[index as int] == self.tasks@[index as int]@);
        let name = self.tasks[index].name.clone();
        if needs_rebuild {
            proof {
                lemma_insert_name(self.run_view().active, name@);
            }
            insert_string(&mut self.active, name.as_str());
            assert(self.run_view() =~= after_check(tasks, old(self).run_view(), index as nat, needs_rebuild));
        } else {
            self.count_done_exec(name.as_str(), TaskStatus::Skipped);
        }
    }

    /// Reports that the task named `name` finished successfully: it is no
    /// longer running, and is recorded as completed and counted as done.
    pub fn on_task_finished(&mut self, name: &str)
        requires
            old(self).wf(),
            old(self).run_view().completed_count < usize::MAX,
        ensures
            final(self).wf(),
            final(self).task_views() == old(self).task_views(),
            final(self).max_view() == old(self).max_view(),
            final(self).tui_view() == old(self).tui_view(),
            final(self).run_view() == after_finish(old(self).task_views(), old(self).run_view(), name@),
    {
        proof {
            lemma_remove_name(self.run_view().active, name@);
        }
        remove_string(&mut self.active, name);
        self.at_top = true;
        self.count_done_exec(name, TaskStatus::Completed);
    }

    /// Records that the task named `name` failed with `message`.
    pub fn on_task_failed(&mut self, name: &str, message: &str)
        requires
            old(self).wf(),
        ensures
            final(self).wf(),
            final(self).task_views() == old(self).task_views(),
            final(self).max_view() == old(self).max_view(),
            final(self).tui_view() == old(self).tui_view(),
            final(self).run_view() == (RunView {
                statuses: old(self).run_view().statuses.insert(name@, StatusView::Failed(message@)),
                ..old(self).run_view()
            }),
    {
        let m = string_of(chars_of(message).as_slice());
        set_status(&mut self.statuses, name, TaskStatus::Failed(m));
        assert(self.run_view() =~= (RunView {
            statuses: old(self).run_view().statuses.insert(name@, StatusView::Failed(message@)),
            ..old(self).run_view()
        }));
    }

    /// How many completions and skips the run has counted.
    pub fn completed_count(&self) -> (r: usize)
        ensures
            r == self.run_view().completed_count,
    {
        self.completed_count
    }

    /// The status recorded for `name`: pending if none is.
    pub fn get_task_status(&self, name: &str) -> (r: TaskStatus)
        requires
            self.wf(),
        ensures
            r@ == (if self.run_view().statuses.contains_key(name@) {
                self.run_view().statuses[name@]
            } else {
                StatusView::Pending
            }),
    {
        proof {
            lemma_status_lookup(self.statuses@, name@);
        }
        match find_status(&self.statuses, name) {
            Some(j) => self.statuses[j].1.duplicate(),
            None => TaskStatus::Pending,
        }
    }

    /// Every status recorded, one entry per name.
    pub fn get_task_statuses(&self) -> (r: Vec<(String, TaskStatus)>)
        requires
            self.wf(),
        ensures
            distinct_keys(r@),
            status_map(r@) == self.run_view().statuses,
    {
        let mut out: Vec<(String, TaskStatus)> = Vec::new();
        let mut i: usize = 0;
        while i < self.statuses.len()
            invariant
                i <= self.statuses.len(),
                self.wf(),
                out@.len() == i,
                forall|k: int|
                    0 <= k < i ==> out@[k].0@ == self.statuses@[k].0@ && out@[k].1@
                        == self.statuses@[k].1@,
            decreases self.statuses.len() - i,
        {
            let entry = (self.statuses[i].0.clone(), self.statuses[i].1.duplicate());
            out.push(entry);
            i = i + 1;
        }
        proof {
            lemma_status_map_views(out@, self.statuses@);
            assert forall|a: int, b: int| 0 <= a < b < out@.len() implies out@[a].0@ != out@[b].0@ by {
                assert(self.statuses@[a].0@ != self.statuses@[b].0@);
            }
        }
        out
    }

    /// Before task `index`'s process starts: every dependency must be
    /// recorded as completed or skipped. If one is not, the first such is
    /// reported and nothing changes; otherwise the task is recorded as
    /// running.
    pub fn begin_task(&mut self, index: usize) -> (r: Result<(), String>)
        requires
            old(self).wf(),
            index < old(self).task_views().len(),
        ensures
            final(self).wf(),
            final(self).task_views() == old(self).task_views(),
            final(self).max_view() == old(self).max_view(),
            final(self).tui_view() == old(self).tui_view(),
            match first_unmet(
                old(self).run_view().statuses,
                old(self).task_views()[index as int].task_deps,
            ) {
                Some(d) => r matches Err(m) && m@ == unmet_message(
                    d,
                    old(self).task_views()[index as int].name,
                ) && final(self).run_view() == old(self).run_view(),
                None => r is Ok && final(self).run_view() == (RunView {
                    statuses: old(self).run_view().statuses.insert(
                        old(self).task_views()[index as int].name,
                        StatusView::Running,
                    ),
                    ..old(self).run_view()
                }),
            },
    {
        let ghost tasks = self.task_views();
        let ghost sm = self.run_view().statuses;
        assert(tasks[index as int] == self.tasks@[index as int]@);
        let name = self.tasks[index].name.clone();
        match self.unmet_dependency(index) {
            Some(d) => {
                let mut msg: Vec<char> = Vec::new();
                push_str(&mut msg, "Dependency ");
                push_str(&mut msg, d.as_str());
                push_str(&mut msg, " not completed for task ");
                push_str(&mut msg, name.as_str());
                assert(msg@ =~= unmet_message(d@, name@));
                Err(string_of(msg.as_slice()))
            },
            None => {
                set_status(&mut self.statuses, name.as_str(), TaskStatus::Running);
                assert(self.run_view() =~= (RunView {
                    statuses: sm.insert(name@, StatusView::Running),
                    ..old(self).run_view()
                }));
                Ok(())
            },
        }
    }

    /// The first dependency of task `index` not recorded as completed or
    /// skipped.
    fn unmet_dependency(&self, index: usize) -> (r: Option<String>)
        requires
            self.wf(),
            index < self.task_views().len(),
        ensures
            match first_unmet(self.run_view().statuses, self.task_views()[index as int].task_deps) {
                Some(d) => r matches Some(s) && s@ == d,
                None => r is None,
            },
    {
        let ghost sm = self.run_view().statuses;
        assert(self.task_views()[index as int] == self.tasks@[index as int]@);
        let deps = &self.tasks[index].task_deps;
        let ghost dv = self.task_views()[index as int].task_deps;
        assert(dv == string_views(deps@));
        let mut k: usize = 0;
        assert(dv.skip(0) =~= dv);
        while k < deps.len()
            invariant
                k <= deps.len(),
                index < self.task_views().len(),
                dv == string_views(deps@),
                dv == self.task_views()[index as int].task_deps,
                distinct_keys(self.statuses@),
                sm == status_map(self.statuses@),
                sm == self.run_view().statuses,
                first_unmet(sm, dv) == first_unmet(sm, dv.skip(k as int)),
            decreases deps.len() - k,
        {
            let d = deps[k].as_str();
            proof {
                lemma_status_lookup(self.statuses@, d@);
            }
            assert(dv.skip(k as int)[0] == d@);
            assert(dv.skip(k as int).drop_first() =~= dv.skip(k + 1));
            let ok = match find_status(&self.statuses, d) {
                Some(j) => match self.statuses[j].1 {
                    TaskStatus::Completed => true,
                    TaskStatus::Skipped => true,
                    _ => false,
                },
                None => false,
            };
            if !ok {
                return Some(deps[k].clone());
            }
            k = k + 1;
        }
        assert(dv.skip(k as int) =~= Seq::<Seq<char>>::empty());
        None
    }

    /// Whether `task` has to run, given what was found for its input and
    /// output files.
    pub fn needs_rebuild(task: &Task, inputs: &Vec<FileState>, outputs: &Vec<FileState>) -> (r: bool)
        ensures
            r == rebuild_needed(task@, inputs@, outputs@),
    {
        if task.file_deps.len() == 0 || task.output_deps.len() == 0 {
            return true;
        }
        let mut k: usize = 0;
        while k < outputs.len()
            invariant
                k <= outputs.len(),
                forall|m: int| 0 <= m < k ==> (#[trigger] outputs@[m]).exists,
            decreases outputs.len() - k,
        {
            if !outputs[k].exists {
                assert(!outputs@[k as int].exists);
                return true;
            }
            k = k + 1;
        }
        match (newest_exec(inputs), oldest_exec(outputs)) {
            (Some(i), Some(o)) => i > o,
            _ => true,
        }
    }

    /// The task a failure message names: its second word.
    pub fn failed_task_name(message: &str) -> (r: Option<String>)
        ensures
            match failed_name_of(message@) {
                Some(n) => r matches Some(s) && s@ == n,
                None => r is None,
            },
    {
        let cs = chars_of(message);
        let words = split_whitespace(&cs);
        if words.len() > 1 {
            assert(string_views(words@)[1] == words@[1]@);
            Some(words[1].clone())
        } else {
            None
        }
    }
}


/// Every event a run takes keeps it well formed, and the completed names
/// only grow: a skipped or finished task joins them and none leaves.
pub proof fn completed_names_only_grow(tasks: Seq<TaskView>, s: RunView, i: nat, needs: bool, name: Seq<char>)
    requires
        run_wf(tasks, s),
        i < tasks.len(),
    ensures
        run_wf(tasks, after_check(tasks, s, i, needs)),
        run_wf(tasks, after_finish(tasks, s, name)),
        forall|x: Seq<char>| s.completed.contains(x) ==> after_check(tasks, s, i, needs).completed.contains(x),
        forall|x: Seq<char>| s.completed.contains(x) ==> after_finish(tasks, s, name).completed.contains(x),
        !needs ==> after_check(tasks, s, i, needs).completed.contains(tasks[i as int].name),
        after_finish(tasks, s, name).completed.contains(name),
{
    lemma_count_done_wf(tasks, s, tasks[i as int].name, StatusView::Skipped);
    lemma_insert_name(s.active, tasks[i as int].name);
    let s2 = RunView { active: remove_name(s.active, name), at_top: true, ..s };
    lemma_remove_name(s.active, name);
    assert(run_wf(tasks, s2));
    lemma_count_done_wf(tasks, s2, name, StatusView::Completed);
}

/// The value of a decimal digit.
pub open spec fn digit_value(c: char) -> int {
    (c as u32) as int - 48
}

pub open spec fn is_digit(c: char) -> bool {
    48 <= (c as u32) && (c as u32) <= 57
}

pub open spec fn all_digits(s: Seq<char>) -> bool {
    forall|i: int| 0 <= i < s.len() ==> is_digit(#[trigger] s[i])
}

/// The number decimal digits `s` write.
pub open spec fn digits_value(s: Seq<char>) -> int
    decreases s.len(),
{
    if s.len() == 0 {
        0
    } else {
        digits_value(s.drop_last()) * 10 + digit_value(s.last())
    }
}

/// `s` read as an `i32` the way `str::parse` reads one: an optional sign,
/// then at least one digit and nothing else, within the type's range.
pub open spec fn parse_i32(s: Seq<char>) -> Option<i32> {
    let neg = s.len() > 0 && s[0] == '-';
    let body = if s.len() > 0 && (s[0] == '-' || s[0] == '+') {
        s.drop_first()
    } else {
        s
    };
    let v = if neg {
        -digits_value(body)
    } else {
        digits_value(body)
    };
    if body.len() > 0 && all_digits(body) && i32::MIN <= v <= i32::MAX {
        Some(v as i32)
    } else {
        None
    }
}

/// `s` read as an `i32`, as `str::parse` reads it.
pub fn parse_i32_chars(s: &Vec<char>) -> (r: Option<i32>)
    ensures
        r == parse_i32(s@),
{
    let n = s.len();
    if n == 0 {
        return None;
    }
    let neg = s[0] == '-';
    let start: usize = if s[0] == '-' || s[0] == '+' {
        1
    } else {
        0
    };
    let ghost body = if s@.len() > 0 && (s@[0] == '-' || s@[0] == '+') {
        s@.drop_first()
    } else {
        s@
    };
    assert(body =~= s@.skip(start as int));
    if start == n {
        return None;
    }
    let mut acc: i64 = 0;
    let mut big = false;
    let mut i = start;
    assert(body.take(0) =~= Seq::<char>::empty());
    while i < n
        invariant
            start <= i <= n == s@.len(),
            body == s@.skip(start as int),
            body == (if s@.len() > 0 && (s@[0] == '-' || s@[0] == '+') {
                s@.drop_first()
            } else {
                s@
            }),
            neg == (s@.len() > 0 && s@[0] == '-'),
            all_digits(body.take(i - start)),
            digits_value(body.take(i - start)) >= 0,
            !big ==> acc == digits_value(body.take(i - start)) && acc <= 2147483648,
            big ==> digits_value(body.take(i - start)) > 2147483648,
        decreases n - i,
    {
        let u = s[i] as u32;
        let ghost k = i - start;
        let ghost t = body.take(k + 1);
        assert(t.drop_last() =~= body.take(k));
        assert(t.last() == s@[i as int]);
        if !(48 <= u && u <= 57) {
            assert(body[k] == s@[i as int]);
            assert(!is_digit(body[k]));
            assert(!all_digits(body));
            return None;
        }
        if !big {
            acc = acc * 10 + (u - 48) as i64;
            if acc > 2147483648 {
                big = true;
            }
        }
        assert forall|j: int| 0 <= j < t.len() implies is_digit(#[trigger] t[j]) by {
            if j < k {
                assert(t[j] == body.take(k)[j]);
            }
        }
        i = i + 1;
    }
    assert(body.take(n - start) =~= body);
    if big {
        return None;
    }
    if neg {
        Some((0 - acc) as i32)
    } else if acc <= 2147483647 {
        Some(acc as i32)
    } else {
        None
    }
}

/// The words a failure message puts before the process's exit code.
pub open spec fn exit_code_marker() -> Seq<char> {
    seq!['e', 'x', 'i', 't', ' ', 'c', 'o', 'd', 'e']
}

/// The exit code recorded for a failed task, read from its failure
/// message: the text after the first `exit code` (up to the next one),
/// trimmed and read as an `i32`; 1 when there is none or it does not read.
pub open spec fn exit_code_of(message: Seq<char>) -> i32 {
    match find_s(message, exit_code_marker()) {
        None => 1,
        Some(i) => {
            let rest = message.skip(i as int + 9);
            let piece = match find_s(rest, exit_code_marker()) {
                Some(j) => rest.take(j as int),
                None => rest,
            };
            match parse_i32(trim_s(piece)) {
                Some(v) => v,
                None => 1,
            }
        },
    }
}

/// The exit code recorded for a failed task, from its failure message.
pub fn failure_exit_code(message: &str) -> (r: i32)
    ensures
        r == exit_code_of(message@),
{
    let m = chars_of(message);
    let mut marker: Vec<char> = Vec::new();
    marker.push('e');
    marker.push('x');
    marker.push('i');
    marker.push('t');
    marker.push(' ');
    marker.push('c');
    marker.push('o');
    marker.push('d');
    marker.push('e');
    assert(marker@ =~= exit_code_marker());
    match find(&m, &marker) {
        None => 1,
        Some(i) => {
            let mlen = m.len();
            proof {
                crate::text::lemma_find_from_some(m@, marker@, 0);
                assert(find_s(m@, marker@) == Some(i as nat));
                assert(marker@.len() == 9);
                assert(i + 9 <= mlen);
            }
            let rest = sub_chars(&m, i + 9, mlen);
            assert(rest@ =~= m@.skip(i + 9));
            let piece = match find(&rest, &marker) {
                Some(j) => {
                    proof {
                        crate::text::lemma_find_from_some(rest@, marker@, 0);
                    }
                    let p = sub_chars(&rest, 0, j);
                    assert(p@ =~= rest@.take(j as int));
                    p
                },
                None => rest,
            };
            let t = trim(&piece);
            match parse_i32_chars(&t) {
                Some(v) => v,
                None => 1,
            }
        },
    }
}

} // verus!
