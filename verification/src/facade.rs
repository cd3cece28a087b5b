//! otto's own terminal writer, as state: where each write goes (held for a
//! `tty:` task, around the live region, or straight out), where each
//! stream's cursor is, and the row changes the region asks for. The locks,
//! the handles and the bars belong to the caller, which carries out what
//! each call returns.

use vstd::prelude::*;
use crate::hold::{flat, seg_views, Drain, Route, SpillOutcome, Surrendered};
use crate::mode::ProgressMode;
use crate::rows::{apply_ops, BarOp, Region};
use crate::text::{push_str, string_of};
use vstd::utf8::encode_utf8;

verus! {

/// One of otto's two output streams.
#[derive(Debug, Clone, Copy, PartialEq, Eq, Structural)]
pub enum Stream {
    Stdout,
    Stderr,
}

/// Where the reset goes after a child that shared otto's terminal: to each
/// stream that is a terminal, once per terminal. When both are the same
/// terminal, stderr alone carries it.
pub open spec fn reset_streams(stdout_is_terminal: bool, stderr_is_terminal: bool, same_destination: bool) -> Seq<
    Stream,
> {
    let out: Seq<Stream> = if stdout_is_terminal && !(stderr_is_terminal && same_destination) {
        seq![Stream::Stdout]
    } else {
        Seq::empty()
    };
    if stderr_is_terminal {
        out.push(Stream::Stderr)
    } else {
        out
    }
}

pub fn reset_targets(stdout_is_terminal: bool, stderr_is_terminal: bool, same_destination: bool) -> (r: Vec<
    Stream,
>)
    ensures
        r@ == reset_streams(stdout_is_terminal, stderr_is_terminal, same_destination),
{
    let mut v: Vec<Stream> = Vec::new();
    if stdout_is_terminal && !(stderr_is_terminal && same_destination) {
        v.push(Stream::Stdout);
    }
    if stderr_is_terminal {
        v.push(Stream::Stderr);
    }
    assert(v@ =~= reset_streams(stdout_is_terminal, stderr_is_terminal, same_destination));
    v
}

/// Where one write went.
pub enum Delivery {
    /// Held while a `tty:` task owns the terminal, by the hold's route. A
    /// write routed to the spill file is the caller's to write, reported
    /// back through [`Facade::record_spill`].
    Held(Route),
    /// Straight to the stream.
    Direct,
    /// To the stream with the region taken off the screen around it; when
    /// `newline`, a `\n` then goes to stderr so the rows start at column
    /// zero.
    AroundRegion { newline: bool },
}

/// How a block of writes is carried out.
#[derive(Debug, Clone, Copy, PartialEq, Eq, Structural)]
pub enum BlockPlan {
    /// Each write held, through [`Facade::hold`].
    Held,
    /// With the region taken off the screen once around the whole block.
    AroundRegion,
    /// Straight to the streams.
    Direct,
}

/// Row changes for the region: a `\n` to stderr first when `newline`, then
/// the bar changes, then a redraw.
pub struct RowUpdate {
    pub newline: bool,
    pub ops: Vec<BarOp>,
}

/// What a surrender does: whether this call took the terminal, and whether
/// the region must be erased before the child draws.
#[derive(Debug, Clone, Copy, PartialEq, Eq, Structural)]
pub struct Handoff {
    pub owns: bool,
    pub erase_region: bool,
}

/// What teardown does: erase the region when there was one, then write out
/// what was held, when a `tty:` task still owned the terminal.
pub struct Teardown {
    pub erase_region: bool,
    pub held: Option<Drain>,
}

pub open spec fn other(stream: Stream) -> Stream {
    match stream {
        Stream::Stdout => Stream::Stderr,
        Stream::Stderr => Stream::Stdout,
    }
}

/// Whether `bytes` end in a newline.
pub open spec fn ends_line(bytes: Seq<u8>) -> bool {
    bytes.last() == 10u8
}

/// A drain gives back every write held, in order, with the warning when
/// the spill broke.
pub open spec fn flat_drain(d: Drain, h: Surrendered) -> bool {
    &&& flat(seg_views(d.held@)) + flat(h.spilled_view()) + flat(seg_views(d.overflow@)) == flat(h.written_view())
    &&& d.spilled == h.spill_started_view()
    &&& (!d.spilled ==> h.spilled_view().len() == 0)
    &&& (h.error_view() is Some <==> d.warning is Some)
}

/// The facade's state.
pub struct Facade {
    terminal: Option<Surrendered>,
    region: Option<Region>,
    one_destination: bool,
    out_at_start: bool,
    err_at_start: bool,
    sgr_resets: u64,
}

impl Facade {
    pub closed spec fn wf(&self) -> bool {
        &&& (self.terminal matches Some(h) ==> h.wf())
        &&& (self.region matches Some(r) ==> r.wf())
    }

    pub closed spec fn terminal_view(&self) -> Option<Surrendered> {
        self.terminal
    }

    pub closed spec fn region_opt(&self) -> Option<Region> {
        self.region
    }

    /// Whether a `tty:` task owns the terminal.
    pub closed spec fn surrendered(&self) -> bool {
        self.terminal is Some
    }

    /// What is held while it does.
    pub closed spec fn held(&self) -> Surrendered {
        self.terminal->0
    }

    /// Whether the live region is installed.
    pub closed spec fn has_region_view(&self) -> bool {
        self.region is Some
    }

    /// The installed region.
    pub closed spec fn region_view(&self) -> Region {
        self.region->0
    }

    /// Whether the two streams are one destination, sharing one cursor.
    pub closed spec fn one_destination_view(&self) -> bool {
        self.one_destination
    }

    /// Whether `stream`'s cursor is at column zero.
    pub closed spec fn at_start(&self, stream: Stream) -> bool {
        if self.one_destination {
            self.out_at_start
        } else {
            match stream {
                Stream::Stdout => self.out_at_start,
                Stream::Stderr => self.err_at_start,
            }
        }
    }

    /// How many times a child's terminal was handed back with its colour
    /// state reset.
    pub closed spec fn resets_view(&self) -> nat {
        self.sgr_resets as nat
    }

    /// The line state after `stream` was written with something ending in a
    /// newline (`nl`) or not: that stream's cursor, and the other's too when
    /// they are one destination.
    pub open spec fn noted(&self, after: Facade, stream: Stream, nl: bool) -> bool {
        &&& after.at_start(stream) == nl
        &&& (!self.one_destination_view() ==> after.at_start(other(stream)) == self.at_start(other(stream)))
        &&& after.one_destination_view() == self.one_destination_view()
    }

    /// A facade with nothing held and no region, both cursors at column
    /// zero, the two streams one destination.
    pub fn new() -> (r: Facade)
        ensures
            r.wf(),
            !r.surrendered(),
            !r.has_region_view(),
            r.one_destination_view(),
            r.at_start(Stream::Stdout) && r.at_start(Stream::Stderr),
            r.resets_view() == 0,
    {
        Facade::with_one_destination(true)
    }

    /// A facade whose streams are one destination or two.
    pub fn with_one_destination(one: bool) -> (r: Facade)
        ensures
            r.wf(),
            !r.surrendered(),
            !r.has_region_view(),
            r.one_destination_view() == one,
            r.at_start(Stream::Stdout) && r.at_start(Stream::Stderr),
            r.resets_view() == 0,
    {
        Facade {
            terminal: None,
            region: None,
            one_destination: one,
            out_at_start: true,
            err_at_start: true,
            sgr_resets: 0,
        }
    }

    /// Whether `stream`'s cursor is at column zero.
    pub fn line_start(&self, stream: Stream) -> (r: bool)
        ensures
            r == self.at_start(stream),
    {
        if self.one_destination {
            self.out_at_start
        } else {
            match stream {
                Stream::Stdout => self.out_at_start,
                Stream::Stderr => self.err_at_start,
            }
        }
    }

    /// Whether a `tty:` task owns the terminal.
    pub fn is_surrendered(&self) -> (r: bool)
        ensures
            r == self.surrendered(),
    {
        self.terminal.is_some()
    }

    /// Whether the live region is installed.
    pub fn has_region(&self) -> (r: bool)
        ensures
            r == self.has_region_view(),
    {
        self.region.is_some()
    }

    /// The installed region, for drawing.
    pub fn region(&self) -> (r: Option<&Region>)
        ensures
            r is Some == self.has_region_view(),
            r matches Some(g) ==> *g == self.region_view(),
    {
        match &self.region {
            Some(g) => Some(g),
            None => None,
        }
    }

    /// How many handbacks reset the child's colour state.
    pub fn sgr_resets(&self) -> (r: u64)
        ensures
            r == self.resets_view(),
    {
        self.sgr_resets
    }

    fn set_at_start(&mut self, stream: Stream, nl: bool)
        ensures
            old(self).noted(*final(self), stream, nl),
            final(self).terminal_view() == old(self).terminal_view(),
            final(self).region_opt() == old(self).region_opt(),
            final(self).resets_view() == old(self).resets_view(),
    {
        if self.one_destination {
            self.out_at_start = nl;
        } else {
            match stream {
                Stream::Stdout => self.out_at_start = nl,
                Stream::Stderr => self.err_at_start = nl,
            }
        }
    }

    /// Record that `bytes` went to `stream`: its cursor is at column zero
    /// when they end in a newline. An empty write moves no cursor.
    pub fn note_written(&mut self, stream: Stream, bytes: &[u8])
        ensures
            bytes@.len() > 0 ==> old(self).noted(*final(self), stream, ends_line(bytes@)),
            bytes@.len() == 0 ==> *final(self) == *old(self),
            final(self).terminal_view() == old(self).terminal_view(),
            final(self).region_opt() == old(self).region_opt(),
            final(self).resets_view() == old(self).resets_view(),
    {
        let n = bytes.len();
        if n > 0 {
            self.set_at_start(stream, bytes[n - 1] == 10u8);
        }
    }

    /// Put stderr's cursor at column zero: true when a `\n` must be written
    /// to stderr for that.
    pub fn ensure_line_start(&mut self) -> (newline: bool)
        ensures
            newline == !old(self).at_start(Stream::Stderr),
            newline ==> old(self).noted(*final(self), Stream::Stderr, true),
            !newline ==> *final(self) == *old(self),
            final(self).terminal_view() == old(self).terminal_view(),
            final(self).region_opt() == old(self).region_opt(),
            final(self).resets_view() == old(self).resets_view(),
    {
        if !self.line_start(Stream::Stderr) {
            self.set_at_start(Stream::Stderr, true);
            true
        } else {
            false
        }
    }

    /// One write: held while a `tty:` task owns the terminal, around the
    /// region when one is installed, straight out otherwise. The cursor is
    /// noted either way; around the region, stderr is then put back at
    /// column zero for the rows.
    pub fn write(&mut self, stream: Stream, text: &str) -> (d: Delivery)
        requires
            old(self).wf(),
        ensures
            final(self).wf(),
            final(self).region_opt() == old(self).region_opt(),
            final(self).resets_view() == old(self).resets_view(),
            final(self).surrendered() == old(self).surrendered(),
            old(self).surrendered() ==> (d matches Delivery::Held(route) && route == old(self).held().route_of(
                encode_utf8(text@).len(),
            ) && (route == Route::Spill ==> final(self).held() == old(self).held()) && (route != Route::Spill
                ==> final(self).held().written_view() == (if encode_utf8(text@).len() > 0 {
                old(self).held().written_view().push((stream, encode_utf8(text@)))
            } else {
                old(self).held().written_view()
            }))),
            !old(self).surrendered() && old(self).has_region_view() ==> (d matches Delivery::AroundRegion {
                newline,
            } && final(self).at_start(Stream::Stderr)),
            !old(self).surrendered() && !old(self).has_region_view() ==> d is Direct,
            !old(self).surrendered() ==> final(self).terminal_view() == old(self).terminal_view(),
            (old(self).surrendered() || !old(self).has_region_view()) && encode_utf8(text@).len() > 0 ==> old(self).noted(*final(self), stream, ends_line(encode_utf8(text@))),
    {
        let bytes = text.as_bytes();
        if let Some(h) = self.terminal.as_mut() {
            let route = h.push(stream, bytes);
            self.note_written(stream, bytes);
            return Delivery::Held(route);
        }
        if self.region.is_some() {
            self.note_written(stream, bytes);
            let newline = self.ensure_line_start();
            Delivery::AroundRegion { newline }
        } else {
            self.note_written(stream, bytes);
            Delivery::Direct
        }
    }

    /// One write that must start at column zero: a `\n` goes first when
    /// `stream`'s cursor is mid-line. Returns what was written and where.
    pub fn write_line(&mut self, stream: Stream, text: &str) -> (r: (String, Delivery))
        requires
            old(self).wf(),
        ensures
            final(self).wf(),
            r.0@ == if old(self).at_start(stream) {
                text@
            } else {
                seq!['\n'] + text@
            },
            final(self).region_opt() == old(self).region_opt(),
            final(self).surrendered() == old(self).surrendered(),
    {
        let mut v: Vec<char> = Vec::new();
        if !self.line_start(stream) {
            v.push('\n');
        }
        push_str(&mut v, text);
        let line = string_of(v.as_slice());
        let d = self.write(stream, line.as_str());
        (line, d)
    }

    /// Install the live region over `task_names`, once: nothing in quiet
    /// mode, nothing when one is already installed. Says whether it took.
    pub fn set_region(&mut self, mode: ProgressMode, task_names: &Vec<String>) -> (installed: bool)
        requires
            old(self).wf(),
        ensures
            final(self).wf(),
            installed == (mode == ProgressMode::Live && !old(self).has_region_view()),
            !installed ==> *final(self) == *old(self),
            installed ==> final(self).has_region_view() && final(self).region_view().running()
                == Seq::<Seq<char>>::empty() && final(self).terminal_view() == old(self).terminal_view()
                && final(self).resets_view() == old(self).resets_view(),
    {
        if mode == ProgressMode::Quiet {
            return false;
        }
        if self.region.is_some() {
            return false;
        }
        self.region = Some(Region::new(task_names));
        true
    }

    /// A task started: its row, unless a `tty:` task owns the terminal or
    /// no region is installed.
    pub fn task_started(&mut self, name: &str, cap: usize) -> (r: Option<RowUpdate>)
        requires
            old(self).wf(),
            cap >= 1,
        ensures
            final(self).wf(),
            final(self).terminal_view() == old(self).terminal_view(),
            final(self).has_region_view() == old(self).has_region_view(),
            old(self).surrendered() || !old(self).has_region_view() ==> r is None && *final(self)
                == *old(self),
            !old(self).surrendered() && old(self).has_region_view() ==> (r matches Some(u) && u.newline
                == !old(self).at_start(Stream::Stderr) && final(self).at_start(Stream::Stderr)
                && final(self).region_view().running() == (if old(self).region_view().running().contains(name@) {
                old(self).region_view().running()
            } else {
                old(self).region_view().running().push(name@)
            }) && final(self).region_view().shows_first(cap as nat) && apply_ops(
                old(self).region_view().screen(),
                u.ops@,
            ) == final(self).region_view().screen()),
    {
        if self.terminal.is_some() || self.region.is_none() {
            return None;
        }
        let newline = self.ensure_line_start();
        match self.region.as_mut() {
            Some(g) => {
                let ops = g.started(name, cap);
                Some(RowUpdate { newline, ops })
            },
            None => None,
        }
    }

    /// A task reported: its row comes off, unless a `tty:` task owns the
    /// terminal or no region is installed.
    pub fn task_finished(&mut self, name: &str, cap: usize) -> (r: Option<RowUpdate>)
        requires
            old(self).wf(),
            cap >= 1,
        ensures
            final(self).wf(),
            final(self).terminal_view() == old(self).terminal_view(),
            final(self).has_region_view() == old(self).has_region_view(),
            old(self).surrendered() || !old(self).has_region_view() ==> r is None && *final(self)
                == *old(self),
            !old(self).surrendered() && old(self).has_region_view() ==> (r matches Some(u) && u.newline
                == !old(self).at_start(Stream::Stderr) && final(self).at_start(Stream::Stderr)
                && !final(self).region_view().running().contains(name@) && final(self).region_view().shows_first(
                cap as nat,
            ) && apply_ops(old(self).region_view().screen(), u.ops@) == final(self).region_view().screen()),
    {
        if self.terminal.is_some() || self.region.is_none() {
            return None;
        }
        let newline = self.ensure_line_start();
        match self.region.as_mut() {
            Some(g) => {
                let ops = g.finished(name, cap);
                Some(RowUpdate { newline, ops })
            },
            None => None,
        }
    }

    /// Fit the rows to `cap` again and say whether the region is still
    /// installed, which is the refresh thread's reason to go on. While a
    /// `tty:` task owns the terminal nothing is drawn.
    pub fn refresh(&mut self, cap: usize) -> (r: (bool, Option<RowUpdate>))
        requires
            old(self).wf(),
            cap >= 1,
        ensures
            final(self).wf(),
            r.0 == old(self).has_region_view(),
            final(self).terminal_view() == old(self).terminal_view(),
            final(self).has_region_view() == old(self).has_region_view(),
            old(self).surrendered() || !old(self).has_region_view() ==> r.1 is None && *final(self)
                == *old(self),
            !old(self).surrendered() && old(self).has_region_view() ==> (r.1 matches Some(u) && u.newline
                == !old(self).at_start(Stream::Stderr) && final(self).region_view().running() == old(self).region_view().running() && final(self).region_view().shows_first(cap as nat) && apply_ops(
                old(self).region_view().screen(),
                u.ops@,
            ) == final(self).region_view().screen()),
    {
        if self.terminal.is_some() {
            return (self.region.is_some(), None);
        }
        if self.region.is_none() {
            return (false, None);
        }
        let newline = self.ensure_line_start();
        match self.region.as_mut() {
            Some(g) => {
                let ops = g.refresh(cap);
                (true, Some(RowUpdate { newline, ops }))
            },
            None => (false, None),
        }
    }

    /// How a block of writes is carried out right now.
    pub fn block_plan(&self) -> (p: BlockPlan)
        ensures
            p == if self.surrendered() {
                BlockPlan::Held
            } else if self.has_region_view() {
                BlockPlan::AroundRegion
            } else {
                BlockPlan::Direct
            },
    {
        if self.terminal.is_some() {
            BlockPlan::Held
        } else if self.region.is_some() {
            BlockPlan::AroundRegion
        } else {
            BlockPlan::Direct
        }
    }

    /// Hold one write of a block while a `tty:` task owns the terminal.
    pub fn hold(&mut self, stream: Stream, bytes: &[u8]) -> (route: Route)
        requires
            old(self).wf(),
            old(self).surrendered(),
        ensures
            final(self).wf(),
            final(self).surrendered(),
            route == old(self).held().route_of(bytes@.len() as nat),
            route == Route::Spill ==> final(self).held() == old(self).held(),
            route != Route::Spill ==> final(self).held().written_view() == if bytes@.len() > 0 {
                old(self).held().written_view().push((stream, bytes@))
            } else {
                old(self).held().written_view()
            },
            final(self).region_opt() == old(self).region_opt(),
            final(self).resets_view() == old(self).resets_view(),
    {
        match self.terminal.as_mut() {
            Some(h) => h.push(stream, bytes),
            None => Route::Empty,
        }
    }

    /// What became of a held write the hold sent to the spill file.
    pub fn record_spill(&mut self, stream: Stream, bytes: &[u8], outcome: SpillOutcome)
        requires
            old(self).wf(),
            old(self).surrendered(),
            old(self).held().route_of(bytes@.len() as nat) == Route::Spill,
        ensures
            final(self).wf(),
            final(self).surrendered(),
            final(self).held().written_view() == old(self).held().written_view().push((stream, bytes@)),
            final(self).region_opt() == old(self).region_opt(),
            final(self).resets_view() == old(self).resets_view(),
    {
        match self.terminal.as_mut() {
            Some(h) => h.record_spill(stream, bytes, outcome),
            None => {},
        }
    }

    /// Hand the terminal to the `tty:` task `task`, holding otto's writes
    /// until it comes back. A second surrender while one is live takes
    /// nothing.
    pub fn surrender(&mut self, task: &str) -> (h: Handoff)
        requires
            old(self).wf(),
        ensures
            final(self).wf(),
            h.owns == !old(self).surrendered(),
            h.erase_region == (h.owns && old(self).has_region_view()),
            !h.owns ==> *final(self) == *old(self),
            h.owns ==> final(self).surrendered() && final(self).held().task_view() == task@
                && final(self).held().written_view() == Seq::<(Stream, Seq<u8>)>::empty()
                && final(self).region_opt() == old(self).region_opt(),
            final(self).resets_view() == old(self).resets_view(),
    {
        if self.terminal.is_some() {
            return Handoff { owns: false, erase_region: false };
        }
        let erase_region = self.region.is_some();
        self.terminal = Some(Surrendered::new(task));
        Handoff { owns: true, erase_region }
    }

    /// Take the terminal back: everything held, to write out in order, and
    /// whether the region must then be redrawn. Nothing when the terminal
    /// was not surrendered.
    pub fn reclaim(&mut self) -> (r: Option<(Drain, bool)>)
        requires
            old(self).wf(),
        ensures
            final(self).wf(),
            !final(self).surrendered(),
            final(self).region_opt() == old(self).region_opt(),
            r is Some == old(self).surrendered(),
            r matches Some(p) ==> p.1 == old(self).has_region_view() && flat_drain(
                p.0,
                old(self).held(),
            ),
            !old(self).surrendered() ==> *final(self) == *old(self),
            old(self).surrendered() ==> final(self).resets_view() == (if old(self).resets_view() < u64::MAX {
                old(self).resets_view() + 1
            } else {
                old(self).resets_view()
            }),
    {
        match self.terminal.take() {
            Some(h) => {
                if self.sgr_resets < u64::MAX {
                    self.sgr_resets = self.sgr_resets + 1;
                }
                let d = h.drain();
                Some((d, self.region.is_some()))
            },
            None => None,
        }
    }

    /// Put the terminal back the way otto found it: erase the region and
    /// forget it, then write out what a `tty:` task's window still holds.
    /// A second teardown has nothing left to do.
    pub fn teardown(&mut self) -> (t: Teardown)
        requires
            old(self).wf(),
        ensures
            final(self).wf(),
            !final(self).surrendered(),
            !final(self).has_region_view(),
            t.erase_region == old(self).has_region_view(),
            t.held is Some == old(self).surrendered(),
            t.held matches Some(d) ==> flat_drain(d, old(self).held()),
            old(self).surrendered() ==> final(self).resets_view() == (if old(self).resets_view() < u64::MAX {
                old(self).resets_view() + 1
            } else {
                old(self).resets_view()
            }),
            !old(self).surrendered() ==> final(self).resets_view() == old(self).resets_view(),
    {
        let erase_region = self.region.is_some();
        self.region = None;
        let held = match self.terminal.take() {
            Some(h) => {
                if self.sgr_resets < u64::MAX {
                    self.sgr_resets = self.sgr_resets + 1;
                }
                Some(h.drain())
            },
            None => None,
        };
        Teardown { erase_region, held }
    }

    /// Take what is held without writing it anywhere.
    pub fn take_held(&mut self) -> (r: Option<Surrendered>)
        requires
            old(self).wf(),
        ensures
            final(self).wf(),
            !final(self).surrendered(),
            r is Some == old(self).surrendered(),
            r matches Some(h) ==> h == old(self).held() && h.wf(),
            final(self).region_opt() == old(self).region_opt(),
    {
        self.terminal.take()
    }
}

} // verus!
