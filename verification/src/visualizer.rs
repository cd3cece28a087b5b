//! How a line of task output is shown in the plain output view.

use vstd::prelude::*;
use std::time::{Duration, SystemTime};
use crate::duration::{secs_of, whole_secs};
use crate::fmt::{dec, push_dec};
use crate::output::{OutputType, TaskOutput};
use crate::text::{push_str, string_of};

verus! {

/// What the plain output view shows and keeps.
#[derive(Debug, Clone, Copy)]
pub struct VisualizerConfig {
    /// Lines kept per task.
    pub max_lines: usize,
    pub show_timestamps: bool,
    pub show_task_names: bool,
    pub show_stream_types: bool,
}

impl Default for VisualizerConfig {
    fn default() -> (r: VisualizerConfig)
        ensures
            r.max_lines == 1000,
            r.show_timestamps,
            r.show_task_names,
            r.show_stream_types,
    {
        VisualizerConfig { max_lines: 1000, show_timestamps: true, show_task_names: true, show_stream_types: true }
    }
}

/// The time from the Unix epoch to `t`, none for a time before it.
pub uninterp spec fn since_epoch(t: SystemTime) -> Option<Duration>;

/// Calls `SystemTime::duration_since(UNIX_EPOCH)`: the time from the epoch
/// to `t`, or an error (here `None`) for a time before it. It depends on
/// `t` alone; the duration is named, not spelled out.
#[verifier::external_body]
fn duration_since_epoch(t: SystemTime) -> (r: Option<Duration>)
    ensures
        r == since_epoch(t),
{
    t.duration_since(SystemTime::UNIX_EPOCH).ok()
}

/// The whole seconds from the Unix epoch to `t`, zero for a time before it.
pub open spec fn epoch_secs_of(t: SystemTime) -> nat {
    match since_epoch(t) {
        Some(d) => whole_secs(d),
        None => 0,
    }
}

fn epoch_secs(t: SystemTime) -> (r: u64)
    ensures
        r == epoch_secs_of(t),
{
    match duration_since_epoch(t) {
        Some(d) => secs_of(d),
        None => 0,
    }
}

/// The shown form of a line: the bracketed parts the configuration asks for
/// (seconds since the epoch, task name, `out` or `err`), then the content,
/// separated by spaces.
pub open spec fn shown_line(
    config: VisualizerConfig,
    secs: nat,
    task_name: Seq<char>,
    stream: OutputType,
    content: Seq<char>,
) -> Seq<char> {
    (if config.show_timestamps {
        seq!['['] + dec(secs) + seq![']', ' ']
    } else {
        Seq::empty()
    }) + (if config.show_task_names {
        seq!['['] + task_name + seq![']', ' ']
    } else {
        Seq::empty()
    }) + (if config.show_stream_types {
        match stream {
            OutputType::Stdout => "[out] "@,
            OutputType::Stderr => "[err] "@,
        }
    } else {
        Seq::empty()
    }) + content
}

/// The shown form of a line whose time is `secs` seconds after the epoch.
pub fn format_output_at(config: &VisualizerConfig, secs: u64, output: &TaskOutput) -> (r: String)
    ensures
        r@ == shown_line(*config, secs as nat, output.task_name@, output.stream_type, output.content@),
{
    let mut out: Vec<char> = Vec::new();
    let ghost start = out@;
    if config.show_timestamps {
        out.push('[');
        push_dec(&mut out, secs);
        out.push(']');
        out.push(' ');
    }
    let ghost a = out@;
    if config.show_task_names {
        out.push('[');
        push_str(&mut out, output.task_name.as_str());
        out.push(']');
        out.push(' ');
    }
    let ghost b = out@;
    if config.show_stream_types {
        match output.stream_type {
            OutputType::Stdout => push_str(&mut out, "[out] "),
            OutputType::Stderr => push_str(&mut out, "[err] "),
        }
    }
    push_str(&mut out, output.content.as_str());
    assert(out@ =~= shown_line(*config, secs as nat, output.task_name@, output.stream_type, output.content@));
    string_of(out.as_slice())
}

/// The shown form of a line, with its time read from its timestamp.
pub fn format_output(config: &VisualizerConfig, output: &TaskOutput) -> (r: String)
    ensures
        r@ == shown_line(
            *config,
            epoch_secs_of(output.timestamp) as nat,
            output.task_name@,
            output.stream_type,
            output.content@,
        ),
{
    let secs = epoch_secs(output.timestamp);
    format_output_at(config, secs, output)
}

} // verus!
