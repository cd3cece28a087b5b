//! What otto writes while a `tty:` task owns the terminal: held, not dropped,
//! and put back in the order it was written.
//!
//! Writes are held in memory up to [`SURRENDER_MEMORY_BYTES`]; past that they
//! go to a spill file as framed records (`tag | length | bytes`), and once the
//! spill has failed they are kept in an overflow list instead. Re-arm drains
//! the three stages in that order. Opening and writing the spill file is the
//! caller's work: [`Surrendered::push`] says where a write goes, and
//! [`Surrendered::record_spill`] takes what became of a spilled one.

use vstd::prelude::*;
use crate::facade::Stream;
use crate::text::{push_str, string_of};

verus! {

/// How many bytes of otto's own output are held in memory while a `tty:`
/// task owns the terminal.
pub const SURRENDER_MEMORY_BYTES: usize = 65536;

/// The tag written ahead of a spilled stdout record.
pub const SPILL_TAG_STDOUT: u8 = 0;

/// The tag written ahead of a spilled stderr record.
pub const SPILL_TAG_STDERR: u8 = 1;

/// Bytes of framing per spilled record: one stream tag plus a `u64` length.
pub const SPILL_HEADER_BYTES: usize = 9;

/// One held write, tagged with the stream it was headed for.
pub struct Segment {
    pub stream: Stream,
    pub bytes: Vec<u8>,
}

pub open spec fn seg_views(v: Seq<Segment>) -> Seq<(Stream, Seq<u8>)> {
    v.map_values(|s: Segment| (s.stream, s.bytes@))
}

/// `bytes`, each byte tagged with the stream it goes to.
pub open spec fn tagged(stream: Stream, bytes: Seq<u8>) -> Seq<(Stream, u8)> {
    Seq::new(bytes.len(), |i: int| (stream, bytes[i]))
}

/// Writes as the terminal sees them: byte after byte, each on its stream.
pub open spec fn flat(segs: Seq<(Stream, Seq<u8>)>) -> Seq<(Stream, u8)>
    decreases segs.len(),
{
    if segs.len() == 0 {
        Seq::empty()
    } else {
        flat(segs.drop_last()) + tagged(segs.last().0, segs.last().1)
    }
}

/// `segs` after one more write: joined to the last segment when that went to
/// the same stream, a new segment otherwise.
pub open spec fn appended(segs: Seq<(Stream, Seq<u8>)>, stream: Stream, bytes: Seq<u8>) -> Seq<
    (Stream, Seq<u8>),
> {
    if segs.len() > 0 && segs.last().0 == stream {
        segs.drop_last().push((stream, segs.last().1 + bytes))
    } else {
        segs.push((stream, bytes))
    }
}

/// No two neighbouring segments go to the same stream, and none is empty.
pub open spec fn coalesced(segs: Seq<(Stream, Seq<u8>)>) -> bool {
    &&& forall|i: int| 0 <= i < segs.len() ==> (#[trigger] segs[i]).1.len() > 0
    &&& forall|i: int| 0 <= i < segs.len() - 1 ==> (#[trigger] segs[i]).0 != segs[i + 1].0
}

proof fn lemma_flat_push(segs: Seq<(Stream, Seq<u8>)>, x: (Stream, Seq<u8>))
    ensures
        flat(segs.push(x)) == flat(segs) + tagged(x.0, x.1),
{
    assert(segs.push(x).drop_last() =~= segs);
}

proof fn lemma_tagged_add(stream: Stream, a: Seq<u8>, b: Seq<u8>)
    ensures
        tagged(stream, a + b) == tagged(stream, a) + tagged(stream, b),
{
    assert(tagged(stream, a + b) =~= tagged(stream, a) + tagged(stream, b));
}

/// Appending a write adds exactly its bytes, on its stream, at the end.
pub proof fn lemma_flat_appended(segs: Seq<(Stream, Seq<u8>)>, stream: Stream, bytes: Seq<u8>)
    ensures
        flat(appended(segs, stream, bytes)) == flat(segs) + tagged(stream, bytes),
{
    if segs.len() > 0 && segs.last().0 == stream {
        let init = segs.drop_last();
        lemma_flat_push(init, (stream, segs.last().1 + bytes));
        lemma_tagged_add(stream, segs.last().1, bytes);
        assert(flat(init) + (tagged(stream, segs.last().1) + tagged(stream, bytes)) =~= flat(init)
            + tagged(stream, segs.last().1) + tagged(stream, bytes));
    } else {
        lemma_flat_push(segs, (stream, bytes));
    }
}

proof fn lemma_coalesced_appended(segs: Seq<(Stream, Seq<u8>)>, stream: Stream, bytes: Seq<u8>)
    requires
        coalesced(segs),
        bytes.len() > 0,
    ensures
        coalesced(appended(segs, stream, bytes)),
{
    let r = appended(segs, stream, bytes);
    if segs.len() > 0 && segs.last().0 == stream {
        assert forall|i: int| 0 <= i < r.len() - 1 implies (#[trigger] r[i]).0 != r[i + 1].0 by {
            assert(r[i] == segs[i]);
            assert(r[i + 1].0 == segs[i + 1].0);
        }
    } else {
        assert forall|i: int| 0 <= i < r.len() - 1 implies (#[trigger] r[i]).0 != r[i + 1].0 by {
            assert(r[i] == segs[i]);
            if i + 1 < segs.len() {
                assert(r[i + 1] == segs[i + 1]);
            }
        }
    }
}

/// Adds `bytes` to `segments`, joining it to the last segment when that one
/// went to the same stream; says how many bytes were added.
pub fn append(segments: &mut Vec<Segment>, stream: Stream, bytes: &[u8]) -> (r: usize)
    ensures
        seg_views(final(segments)@) == appended(seg_views(old(segments)@), stream, bytes@),
        r == bytes@.len(),
{
    let ghost before = seg_views(segments@);
    let n = segments.len();
    if n > 0 && segments[n - 1].stream == stream {
        let mut last = segments.pop().unwrap();
        let ghost head = last.bytes@;
        let ghost rest = segments@;
        assert(seg_views(rest) =~= before.drop_last());
        assert(head == before.last().1 && last.stream == stream);
        let mut i: usize = 0;
        while i < bytes.len()
            invariant
                i <= bytes@.len(),
                last.bytes@ == head + bytes@.take(i as int),
                last.stream == stream,
            decreases bytes@.len() - i,
        {
            last.bytes.push(bytes[i]);
            assert(bytes@.take(i + 1) =~= bytes@.take(i as int).push(bytes@[i as int]));
            i = i + 1;
        }
        assert(bytes@.take(i as int) =~= bytes@);
        let ghost lv = (last.stream, last.bytes@);
        assert(lv == (stream, before.last().1 + bytes@));
        segments.push(last);
        assert(segments@ == rest.push(segments@.last()));
        assert((segments@.last().stream, segments@.last().bytes@) == lv);
        assert(seg_views(segments@) =~= seg_views(rest).push((stream, before.last().1 + bytes@)));
    } else {
        let mut copy: Vec<u8> = Vec::new();
        let mut i: usize = 0;
        while i < bytes.len()
            invariant
                i <= bytes@.len(),
                copy@ == bytes@.take(i as int),
            decreases bytes@.len() - i,
        {
            copy.push(bytes[i]);
            assert(bytes@.take(i + 1) =~= bytes@.take(i as int).push(bytes@[i as int]));
            i = i + 1;
        }
        assert(bytes@.take(i as int) =~= bytes@);
        segments.push(Segment { stream, bytes: copy });
        assert(seg_views(segments@) =~= before.push((stream, bytes@)));
    }
    bytes.len()
}

/// Where one write goes while the terminal is surrendered.
#[derive(Debug, Clone, Copy, PartialEq, Eq, Structural)]
pub enum Route {
    /// Nothing to hold: the write was empty.
    Empty,
    /// Held in memory.
    Held,
    /// To the spill file, as one framed record.
    Spill,
    /// Kept after the spill broke.
    Overflow,
}

/// What became of a write sent to the spill file.
pub enum SpillOutcome {
    /// The record is in the file (opened for it if it was the first).
    Written,
    /// The file could not be opened; why.
    NotOpened(String),
    /// The file was open but the record could not be written; why.
    NotWritten(String),
}

pub open spec fn warning_text(task: Seq<char>, reason: Seq<char>) -> Seq<char> {
    "otto: WARNING: output held while "@ + task + " owned the terminal could not be spilled: "@ + reason
        + "\n"@
}

/// What otto wrote while a `tty:` task owned the terminal, in order.
pub struct Surrendered {
    task: String,
    held: Vec<Segment>,
    held_bytes: usize,
    spill_started: bool,
    overflow: Vec<Segment>,
    spill_error: Option<String>,
    written: Ghost<Seq<(Stream, Seq<u8>)>>,
    spilled: Ghost<Seq<(Stream, Seq<u8>)>>,
}

/// Everything held, in the three stages re-arm writes in order: the held
/// segments, the spill file's records (when `spilled`), then the overflow,
/// and the warning to print last when the spill broke.
pub struct Drain {
    pub held: Vec<Segment>,
    pub spilled: bool,
    pub overflow: Vec<Segment>,
    pub warning: Option<String>,
}

impl Surrendered {
    /// The invariant: the memory bound holds and is counted exactly; every
    /// write made is in exactly one stage, in order; only a broken spill
    /// feeds the overflow; nothing is in the spill file before it opened.
    pub closed spec fn wf(&self) -> bool {
        &&& self.held_bytes == flat(seg_views(self.held@)).len()
        &&& self.held_bytes <= SURRENDER_MEMORY_BYTES
        &&& coalesced(seg_views(self.held@))
        &&& coalesced(seg_views(self.overflow@))
        &&& (self.spill_error is None ==> self.overflow@.len() == 0)
        &&& (!self.spill_started ==> self.spilled@.len() == 0)
        &&& flat(seg_views(self.held@)) + flat(self.spilled@) + flat(seg_views(self.overflow@)) == flat(
            self.written@,
        )
    }

    /// Every non-empty write made so far, in order.
    pub closed spec fn written_view(&self) -> Seq<(Stream, Seq<u8>)> {
        self.written@
    }

    /// The records written to the spill file, in order.
    pub closed spec fn spilled_view(&self) -> Seq<(Stream, Seq<u8>)> {
        self.spilled@
    }

    pub closed spec fn held_view(&self) -> Seq<(Stream, Seq<u8>)> {
        seg_views(self.held@)
    }

    pub closed spec fn overflow_view(&self) -> Seq<(Stream, Seq<u8>)> {
        seg_views(self.overflow@)
    }

    pub closed spec fn held_bytes_view(&self) -> nat {
        self.held_bytes as nat
    }

    pub closed spec fn spill_started_view(&self) -> bool {
        self.spill_started
    }

    pub closed spec fn error_view(&self) -> Option<Seq<char>> {
        match self.spill_error {
            Some(e) => Some(e@),
            None => None,
        }
    }

    pub closed spec fn task_view(&self) -> Seq<char> {
        self.task@
    }

    /// Where a write of `len` bytes goes: nowhere when empty; to the
    /// overflow once the spill broke; held while nothing has spilled and it
    /// fits under the bound; to the spill file otherwise.
    pub open spec fn route_of(&self, len: nat) -> Route {
        if len == 0 {
            Route::Empty
        } else if self.error_view() is Some {
            Route::Overflow
        } else if !self.spill_started_view() && self.held_bytes_view() + len <= SURRENDER_MEMORY_BYTES {
            Route::Held
        } else {
            Route::Spill
        }
    }

    /// Nothing held yet, for the `tty:` task `task`.
    pub fn new(task: &str) -> (r: Surrendered)
        ensures
            r.wf(),
            r.task_view() == task@,
            r.written_view() == Seq::<(Stream, Seq<u8>)>::empty(),
            r.held_bytes_view() == 0,
            !r.spill_started_view(),
            r.error_view() is None,
    {
        let r = Surrendered {
            task: string_of(crate::text::chars_of(task).as_slice()),
            held: Vec::new(),
            held_bytes: 0,
            spill_started: false,
            overflow: Vec::new(),
            spill_error: None,
            written: Ghost(Seq::empty()),
            spilled: Ghost(Seq::empty()),
        };
        assert(seg_views(r.held@) =~= Seq::<(Stream, Seq<u8>)>::empty());
        assert(seg_views(r.overflow@) =~= Seq::<(Stream, Seq<u8>)>::empty());
        assert(flat(Seq::<(Stream, Seq<u8>)>::empty()) =~= Seq::<(Stream, u8)>::empty());
        r
    }

    /// Bytes held in memory.
    pub fn held_bytes(&self) -> (r: usize)
        ensures
            r == self.held_bytes_view(),
    {
        self.held_bytes
    }

    /// Whether anything has reached the spill file.
    pub fn spilled(&self) -> (r: bool)
        ensures
            r == self.spill_started_view(),
    {
        self.spill_started
    }

    /// Where a write of `len` bytes would go.
    pub fn route(&self, len: usize) -> (r: Route)
        requires
            self.wf(),
        ensures
            r == self.route_of(len as nat),
    {
        if len == 0 {
            Route::Empty
        } else if self.spill_error.is_some() {
            Route::Overflow
        } else if !self.spill_started && len <= SURRENDER_MEMORY_BYTES - self.held_bytes {
            Route::Held
        } else {
            Route::Spill
        }
    }

    /// Hold one write, and say where it went. A write routed to the spill
    /// file is left to the caller, who writes
    /// [`spill_record`]`(stream, bytes)` and reports back through
    /// [`Surrendered::record_spill`]; every other write is done here.
    pub fn push(&mut self, stream: Stream, bytes: &[u8]) -> (r: Route)
        requires
            old(self).wf(),
        ensures
            r == old(self).route_of(bytes@.len() as nat),
            r == Route::Spill ==> *final(self) == *old(self),
            r != Route::Spill ==> final(self).wf(),
            r == Route::Empty ==> *final(self) == *old(self),
            r == Route::Held || r == Route::Overflow ==> final(self).written_view() == old(self).written_view().push((stream, bytes@)),
            r == Route::Held ==> final(self).held_view() == appended(old(self).held_view(), stream, bytes@)
                && final(self).overflow_view() == old(self).overflow_view(),
            r == Route::Overflow ==> final(self).overflow_view() == appended(
                old(self).overflow_view(),
                stream,
                bytes@,
            ) && final(self).held_view() == old(self).held_view(),
            r != Route::Spill ==> final(self).spilled_view() == old(self).spilled_view()
                && final(self).spill_started_view() == old(self).spill_started_view() && final(self).error_view() == old(self).error_view() && final(self).task_view() == old(self).task_view(),
    {
        let r = self.route(bytes.len());
        match r {
            Route::Held => {
                self.hold(stream, bytes);
            },
            Route::Overflow => {
                self.keep_overflow(stream, bytes);
            },
            _ => {},
        }
        r
    }

    fn hold(&mut self, stream: Stream, bytes: &[u8])
        requires
            old(self).wf(),
            old(self).route_of(bytes@.len() as nat) == Route::Held,
        ensures
            final(self).wf(),
            final(self).written_view() == old(self).written_view().push((stream, bytes@)),
            final(self).held_view() == appended(old(self).held_view(), stream, bytes@),
            final(self).overflow_view() == old(self).overflow_view(),
            final(self).spilled_view() == old(self).spilled_view(),
            final(self).spill_started_view() == old(self).spill_started_view(),
            final(self).error_view() == old(self).error_view(),
            final(self).task_view() == old(self).task_view(),
    {
        let ghost h0 = seg_views(self.held@);
        let ghost w0 = self.written@;
        let ghost sp = self.spilled@;
        let ghost ov = seg_views(self.overflow@);
        let n = append(&mut self.held, stream, bytes);
        self.held_bytes = self.held_bytes + n;
        proof {
            lemma_flat_appended(h0, stream, bytes@);
            lemma_coalesced_appended(h0, stream, bytes@);
            lemma_flat_push(w0, (stream, bytes@));
            self.written = Ghost(w0.push((stream, bytes@)));
            assert(flat(seg_views(self.held@)) + flat(sp) + flat(ov) =~= flat(h0) + flat(sp) + flat(ov) + tagged(
                stream,
                bytes@,
            ));
        }
    }

    fn keep_overflow(&mut self, stream: Stream, bytes: &[u8])
        requires
            old(self).wf(),
            old(self).error_view() is Some,
            bytes@.len() > 0,
        ensures
            final(self).wf(),
            final(self).written_view() == old(self).written_view().push((stream, bytes@)),
            final(self).overflow_view() == appended(old(self).overflow_view(), stream, bytes@),
            final(self).held_view() == old(self).held_view(),
            final(self).spilled_view() == old(self).spilled_view(),
            final(self).spill_started_view() == old(self).spill_started_view(),
            final(self).error_view() == old(self).error_view(),
            final(self).task_view() == old(self).task_view(),
    {
        let ghost h = seg_views(self.held@);
        let ghost w0 = self.written@;
        let ghost sp = self.spilled@;
        let ghost ov0 = seg_views(self.overflow@);
        append(&mut self.overflow, stream, bytes);
        proof {
            lemma_flat_appended(ov0, stream, bytes@);
            lemma_coalesced_appended(ov0, stream, bytes@);
            lemma_flat_push(w0, (stream, bytes@));
            self.written = Ghost(w0.push((stream, bytes@)));
            assert(flat(h) + flat(sp) + flat(seg_views(self.overflow@)) =~= flat(h) + flat(sp) + flat(ov0)
                + tagged(stream, bytes@));
        }
    }

    /// Take what became of a write that [`Surrendered::push`] sent to the
    /// spill file. Written: the file holds it and has started. Not opened:
    /// nothing has reached the file and the write is kept in the overflow,
    /// with the reason. Not written: the file has started, the write is
    /// kept in the overflow, with the reason. After a failure every later
    /// write goes to the overflow.
    pub fn record_spill(&mut self, stream: Stream, bytes: &[u8], outcome: SpillOutcome)
        requires
            old(self).wf(),
            old(self).route_of(bytes@.len() as nat) == Route::Spill,
        ensures
            final(self).wf(),
            final(self).written_view() == old(self).written_view().push((stream, bytes@)),
            final(self).held_view() == old(self).held_view(),
            final(self).task_view() == old(self).task_view(),
            match outcome {
                SpillOutcome::Written => {
                    &&& final(self).spilled_view() == old(self).spilled_view().push((stream, bytes@))
                    &&& final(self).spill_started_view()
                    &&& final(self).error_view() is None
                    &&& final(self).overflow_view() == old(self).overflow_view()
                },
                SpillOutcome::NotOpened(reason) => {
                    &&& final(self).spilled_view() == old(self).spilled_view()
                    &&& final(self).spill_started_view() == old(self).spill_started_view()
                    &&& final(self).error_view() == Some(reason@)
                    &&& final(self).overflow_view() == seq![(stream, bytes@)]
                },
                SpillOutcome::NotWritten(reason) => {
                    &&& final(self).spilled_view() == old(self).spilled_view()
                    &&& final(self).spill_started_view()
                    &&& final(self).error_view() == Some(reason@)
                    &&& final(self).overflow_view() == seq![(stream, bytes@)]
                },
            },
    {
        let ghost h = seg_views(self.held@);
        let ghost w0 = self.written@;
        let ghost sp0 = self.spilled@;
        proof {
            lemma_flat_push(w0, (stream, bytes@));
            self.written = Ghost(w0.push((stream, bytes@)));
            assert(seg_views(self.overflow@) =~= Seq::<(Stream, Seq<u8>)>::empty());
            assert(flat(Seq::<(Stream, Seq<u8>)>::empty()) =~= Seq::<(Stream, u8)>::empty());
        }
        match outcome {
            SpillOutcome::Written => {
                self.spill_started = true;
                proof {
                    lemma_flat_push(sp0, (stream, bytes@));
                    self.spilled = Ghost(sp0.push((stream, bytes@)));
                    assert(flat(h) + flat(self.spilled@) + flat(seg_views(self.overflow@)) =~= flat(h) + flat(
                        sp0,
                    ) + tagged(stream, bytes@));
                }
            },
            SpillOutcome::NotOpened(reason) => {
                self.spill_error = Some(reason);
                append(&mut self.overflow, stream, bytes);
                proof {
                    let e: Seq<(Stream, Seq<u8>)> = Seq::empty();
                    lemma_flat_appended(e, stream, bytes@);
                    lemma_coalesced_appended(e, stream, bytes@);
                    assert(appended(e, stream, bytes@) =~= seq![(stream, bytes@)]);
                    assert(flat(h) + flat(sp0) + flat(seg_views(self.overflow@)) =~= flat(h) + flat(sp0) + tagged(
                        stream,
                        bytes@,
                    ));
                }
            },
            SpillOutcome::NotWritten(reason) => {
                self.spill_started = true;
                self.spill_error = Some(reason);
                append(&mut self.overflow, stream, bytes);
                proof {
                    let e: Seq<(Stream, Seq<u8>)> = Seq::empty();
                    lemma_flat_appended(e, stream, bytes@);
                    lemma_coalesced_appended(e, stream, bytes@);
                    assert(appended(e, stream, bytes@) =~= seq![(stream, bytes@)]);
                    assert(flat(h) + flat(sp0) + flat(seg_views(self.overflow@)) =~= flat(h) + flat(sp0) + tagged(
                        stream,
                        bytes@,
                    ));
                }
            },
        }
    }

    /// Everything held, for re-arm: the held segments, whether the spill
    /// file has records to re-stream, the overflow, and the warning that
    /// names the task when the spill broke. Written back in this order, the
    /// stages give every write in the order it was made.
    pub fn drain(self) -> (d: Drain)
        requires
            self.wf(),
        ensures
            seg_views(d.held@) == self.held_view(),
            d.spilled == self.spill_started_view(),
            seg_views(d.overflow@) == self.overflow_view(),
            !d.spilled ==> self.spilled_view().len() == 0,
            flat(seg_views(d.held@)) + flat(self.spilled_view()) + flat(seg_views(d.overflow@)) == flat(
                self.written_view(),
            ),
            match self.error_view() {
                Some(reason) => d.warning matches Some(w) && w@ == warning_text(self.task_view(), reason),
                None => d.warning is None,
            },
    {
        let warning = match &self.spill_error {
            Some(reason) => {
                let mut w: Vec<char> = Vec::new();
                push_str(&mut w, "otto: WARNING: output held while ");
                push_str(&mut w, self.task.as_str());
                push_str(&mut w, " owned the terminal could not be spilled: ");
                push_str(&mut w, reason.as_str());
                push_str(&mut w, "\n");
                assert(w@ =~= warning_text(self.task@, reason@));
                Some(string_of(w.as_slice()))
            },
            None => None,
        };
        Drain { held: self.held, spilled: self.spill_started, overflow: self.overflow, warning }
    }
}

/// However much is written while the terminal is surrendered, memory holds
/// at most [`SURRENDER_MEMORY_BYTES`] of it, counted exactly; the rest is in
/// the spill file or the overflow.
pub proof fn held_memory_is_bounded(h: Surrendered)
    requires
        h.wf(),
    ensures
        h.held_bytes_view() <= SURRENDER_MEMORY_BYTES,
        h.held_bytes_view() == flat(h.held_view()).len(),
        flat(h.held_view()) + flat(h.spilled_view()) + flat(h.overflow_view()) == flat(h.written_view()),
{
}

/// The little-endian bytes of `n`.
pub open spec fn le8(n: u64) -> Seq<u8> {
    seq![
        (n & 0xff) as u8,
        ((n >> 8u64) & 0xff) as u8,
        ((n >> 16u64) & 0xff) as u8,
        ((n >> 24u64) & 0xff) as u8,
        ((n >> 32u64) & 0xff) as u8,
        ((n >> 40u64) & 0xff) as u8,
        ((n >> 48u64) & 0xff) as u8,
        ((n >> 56u64) & 0xff) as u8,
    ]
}

/// The `u64` whose little-endian bytes are `b[0..8]`.
pub open spec fn le_value(b: Seq<u8>) -> u64 {
    (b[0] as u64) | ((b[1] as u64) << 8u64) | ((b[2] as u64) << 16u64) | ((b[3] as u64) << 24u64) | ((
    b[4] as u64) << 32u64) | ((b[5] as u64) << 40u64) | ((b[6] as u64) << 48u64) | ((b[7] as u64)
        << 56u64)
}

pub open spec fn tag_of(stream: Stream) -> u8 {
    match stream {
        Stream::Stdout => SPILL_TAG_STDOUT,
        Stream::Stderr => SPILL_TAG_STDERR,
    }
}

/// One framed spill record: the stream's tag, the length as eight
/// little-endian bytes, then the bytes.
pub open spec fn record_of(stream: Stream, bytes: Seq<u8>) -> Seq<u8> {
    seq![tag_of(stream)] + le8(bytes.len() as u64) + bytes
}

/// The stream a record's tag names: stdout for its own tag, stderr for any
/// other.
pub open spec fn stream_of_tag(tag: u8) -> Stream {
    if tag == SPILL_TAG_STDOUT {
        Stream::Stdout
    } else {
        Stream::Stderr
    }
}

/// Reading a length back gives the length written.
pub proof fn lemma_le_round_trip(n: u64)
    ensures
        le_value(le8(n)) == n,
{
    let b = le8(n);
    assert(b[0] == (n & 0xff) as u8);
    assert(b[7] == ((n >> 56u64) & 0xff) as u8);
    assert(((n & 0xff) as u8 as u64) | ((((n >> 8u64) & 0xff) as u8 as u64) << 8u64) | ((((n >> 16u64)
        & 0xff) as u8 as u64) << 16u64) | ((((n >> 24u64) & 0xff) as u8 as u64) << 24u64) | ((((n
        >> 32u64) & 0xff) as u8 as u64) << 32u64) | ((((n >> 40u64) & 0xff) as u8 as u64) << 40u64)
        | ((((n >> 48u64) & 0xff) as u8 as u64) << 48u64) | ((((n >> 56u64) & 0xff) as u8 as u64)
        << 56u64) == n) by (bit_vector);
}

/// Re-reading a record's header gives back the stream and the length it was
/// written with.
pub proof fn spill_header_reads_back_what_was_written(stream: Stream, bytes: Seq<u8>)
    requires
        bytes.len() <= u64::MAX,
    ensures
        stream_of_tag(record_of(stream, bytes)[0]) == stream,
        le_value(record_of(stream, bytes).subrange(1, 9)) == bytes.len(),
        record_of(stream, bytes).subrange(9, record_of(stream, bytes).len() as int) == bytes,
{
    let r = record_of(stream, bytes);
    assert(r.subrange(1, 9) =~= le8(bytes.len() as u64));
    assert(r.subrange(9, r.len() as int) =~= bytes);
    lemma_le_round_trip(bytes.len() as u64);
}

/// The framed spill record for one write.
pub fn spill_record(stream: Stream, bytes: &[u8]) -> (r: Vec<u8>)
    ensures
        r@ == record_of(stream, bytes@),
{
    let mut r: Vec<u8> = Vec::new();
    let tag = match stream {
        Stream::Stdout => SPILL_TAG_STDOUT,
        Stream::Stderr => SPILL_TAG_STDERR,
    };
    r.push(tag);
    let n = bytes.len() as u64;
    r.push((n & 0xff) as u8);
    r.push(((n >> 8u64) & 0xff) as u8);
    r.push(((n >> 16u64) & 0xff) as u8);
    r.push(((n >> 24u64) & 0xff) as u8);
    r.push(((n >> 32u64) & 0xff) as u8);
    r.push(((n >> 40u64) & 0xff) as u8);
    r.push(((n >> 48u64) & 0xff) as u8);
    r.push(((n >> 56u64) & 0xff) as u8);
    assert(r@ =~= seq![tag_of(stream)] + le8(n) + bytes@.take(0));
    let mut i: usize = 0;
    while i < bytes.len()
        invariant
            i <= bytes@.len(),
            n == bytes@.len() as u64,
            r@ == seq![tag_of(stream)] + le8(n) + bytes@.take(i as int),
        decreases bytes@.len() - i,
    {
        r.push(bytes[i]);
        assert(bytes@.take(i + 1) =~= bytes@.take(i as int).push(bytes@[i as int]));
        i = i + 1;
    }
    assert(bytes@.take(i as int) =~= bytes@);
    r
}

/// The stream and length a spill record's nine-byte header names.
pub fn spill_header(header: &[u8]) -> (r: (Stream, u64))
    requires
        header@.len() == SPILL_HEADER_BYTES,
    ensures
        r.0 == stream_of_tag(header@[0]),
        r.1 == le_value(header@.subrange(1, 9)),
{
    let stream = if header[0] == SPILL_TAG_STDOUT {
        Stream::Stdout
    } else {
        Stream::Stderr
    };
    let len = (header[1] as u64) | ((header[2] as u64) << 8u64) | ((header[3] as u64) << 16u64) | ((
    header[4] as u64) << 24u64) | ((header[5] as u64) << 32u64) | ((header[6] as u64) << 40u64) | ((
    header[7] as u64) << 48u64) | ((header[8] as u64) << 56u64);
    let ghost h = header@.subrange(1, 9);
    assert(h[0] == header@[1] && h[7] == header@[8]);
    (stream, len)
}

/// The bytes of `f` that go to `stream`, in order.
pub open spec fn stream_bytes(f: Seq<(Stream, u8)>, stream: Stream) -> Seq<u8>
    decreases f.len(),
{
    if f.len() == 0 {
        Seq::empty()
    } else {
        stream_bytes(f.drop_last(), stream) + (if f.last().0 == stream {
            seq![f.last().1]
        } else {
            Seq::empty()
        })
    }
}

/// The bytes of the writes in `w` made to `stream`, one after another.
pub open spec fn writes_to(w: Seq<(Stream, Seq<u8>)>, stream: Stream) -> Seq<u8>
    decreases w.len(),
{
    if w.len() == 0 {
        Seq::empty()
    } else {
        writes_to(w.drop_last(), stream) + (if w.last().0 == stream {
            w.last().1
        } else {
            Seq::empty()
        })
    }
}

pub proof fn lemma_stream_bytes_add(a: Seq<(Stream, u8)>, b: Seq<(Stream, u8)>, stream: Stream)
    ensures
        stream_bytes(a + b, stream) == stream_bytes(a, stream) + stream_bytes(b, stream),
    decreases b.len(),
{
    if b.len() == 0 {
        assert(a + b =~= a);
        assert(stream_bytes(a, stream) + stream_bytes(b, stream) =~= stream_bytes(a, stream));
    } else {
        assert((a + b).drop_last() =~= a + b.drop_last());
        assert((a + b).last() == b.last());
        lemma_stream_bytes_add(a, b.drop_last(), stream);
    }
}

pub proof fn lemma_stream_bytes_tagged(st: Stream, bytes: Seq<u8>, stream: Stream)
    ensures
        stream_bytes(tagged(st, bytes), stream) == (if st == stream {
            bytes
        } else {
            Seq::<u8>::empty()
        }),
    decreases bytes.len(),
{
    if bytes.len() > 0 {
        assert(tagged(st, bytes).drop_last() =~= tagged(st, bytes.drop_last()));
        lemma_stream_bytes_tagged(st, bytes.drop_last(), stream);
        if st == stream {
            assert(bytes.drop_last().push(bytes.last()) =~= bytes);
        }
    } else {
        assert(tagged(st, bytes) =~= Seq::<(Stream, u8)>::empty());
    }
}

/// Per stream, the bytes of a run of writes are the writes to that stream.
pub proof fn lemma_stream_bytes_flat(w: Seq<(Stream, Seq<u8>)>, stream: Stream)
    ensures
        stream_bytes(flat(w), stream) == writes_to(w, stream),
    decreases w.len(),
{
    if w.len() > 0 {
        lemma_stream_bytes_flat(w.drop_last(), stream);
        lemma_stream_bytes_add(flat(w.drop_last()), tagged(w.last().0, w.last().1), stream);
        lemma_stream_bytes_tagged(w.last().0, w.last().1, stream);
    } else {
        assert(flat(w) =~= Seq::<(Stream, u8)>::empty());
    }
}

/// Re-arm gives every stream back its own writes: the stdout bytes of the
/// held segments, the spill file's records and the overflow, in that order,
/// are the bytes of every write made to stdout, in the order made; the same
/// holds of stderr.
pub proof fn drained_streams_are_the_writes(h: Surrendered, spilled: Seq<(Stream, Seq<u8>)>, stream: Stream)
    requires
        h.wf(),
        spilled == h.spilled_view(),
    ensures
        stream_bytes(flat(h.held_view()) + flat(spilled) + flat(h.overflow_view()), stream) == writes_to(
            h.written_view(),
            stream,
        ),
{
    lemma_stream_bytes_flat(h.written_view(), stream);
}

fn push_bytes(out: &mut Vec<u8>, bytes: &[u8])
    ensures
        final(out)@ == old(out)@ + bytes@,
{
    let mut i: usize = 0;
    while i < bytes.len()
        invariant
            i <= bytes@.len(),
            out@ == old(out)@ + bytes@.take(i as int),
        decreases bytes@.len() - i,
    {
        out.push(bytes[i]);
        assert(bytes@.take(i + 1) =~= bytes@.take(i as int).push(bytes@[i as int]));
        i = i + 1;
    }
    assert(bytes@.take(i as int) =~= bytes@);
}

/// Each segment's bytes added to `out` or `err`, by its stream, in order.
pub fn split_segments(segs: &Vec<Segment>, out: &mut Vec<u8>, err: &mut Vec<u8>)
    ensures
        final(out)@ == old(out)@ + stream_bytes(flat(seg_views(segs@)), Stream::Stdout),
        final(err)@ == old(err)@ + stream_bytes(flat(seg_views(segs@)), Stream::Stderr),
{
    let ghost sv = seg_views(segs@);
    let mut i: usize = 0;
    assert(flat(sv.take(0)) =~= Seq::<(Stream, u8)>::empty());
    assert(out@ =~= old(out)@ + stream_bytes(flat(sv.take(0)), Stream::Stdout));
    assert(err@ =~= old(err)@ + stream_bytes(flat(sv.take(0)), Stream::Stderr));
    while i < segs.len()
        invariant
            i <= segs.len(),
            sv == seg_views(segs@),
            out@ == old(out)@ + stream_bytes(flat(sv.take(i as int)), Stream::Stdout),
            err@ == old(err)@ + stream_bytes(flat(sv.take(i as int)), Stream::Stderr),
        decreases segs.len() - i,
    {
        let seg = &segs[i];
        let ghost t = sv.take(i + 1);
        assert(t.drop_last() =~= sv.take(i as int));
        assert(t.last() == (seg.stream, seg.bytes@));
        proof {
            lemma_stream_bytes_add(flat(sv.take(i as int)), tagged(seg.stream, seg.bytes@), Stream::Stdout);
            lemma_stream_bytes_add(flat(sv.take(i as int)), tagged(seg.stream, seg.bytes@), Stream::Stderr);
            lemma_stream_bytes_tagged(seg.stream, seg.bytes@, Stream::Stdout);
            lemma_stream_bytes_tagged(seg.stream, seg.bytes@, Stream::Stderr);
        }
        match seg.stream {
            Stream::Stdout => push_bytes(out, seg.bytes.as_slice()),
            Stream::Stderr => push_bytes(err, seg.bytes.as_slice()),
        }
        proof {
            if seg.stream == Stream::Stdout {
                assert(err@ =~= old(err)@ + stream_bytes(flat(t), Stream::Stderr));
            } else {
                assert(out@ =~= old(out)@ + stream_bytes(flat(t), Stream::Stdout));
            }
        }
        i = i + 1;
    }
    assert(sv.take(i as int) =~= sv);
}

impl Drain {
    /// What re-arm writes, per stream: the held segments, then `spilled`
    /// (the spill file's records, as read back), then the overflow, each
    /// byte on its own stream. The warning, when there is one, follows on
    /// stderr.
    pub fn into_streams(&self, spilled: &Vec<Segment>) -> (r: (Vec<u8>, Vec<u8>))
        ensures
            r.0@ == stream_bytes(
                flat(seg_views(self.held@)) + flat(seg_views(spilled@)) + flat(seg_views(self.overflow@)),
                Stream::Stdout,
            ),
            r.1@ == stream_bytes(
                flat(seg_views(self.held@)) + flat(seg_views(spilled@)) + flat(seg_views(self.overflow@)),
                Stream::Stderr,
            ),
    {
        let mut out: Vec<u8> = Vec::new();
        let mut err: Vec<u8> = Vec::new();
        split_segments(&self.held, &mut out, &mut err);
        split_segments(spilled, &mut out, &mut err);
        split_segments(&self.overflow, &mut out, &mut err);
        proof {
            let a = flat(seg_views(self.held@));
            let b = flat(seg_views(spilled@));
            let c = flat(seg_views(self.overflow@));
            lemma_stream_bytes_add(a, b, Stream::Stdout);
            lemma_stream_bytes_add(a + b, c, Stream::Stdout);
            lemma_stream_bytes_add(a, b, Stream::Stderr);
            lemma_stream_bytes_add(a + b, c, Stream::Stderr);
            assert(out@ =~= stream_bytes(a + b + c, Stream::Stdout));
            assert(err@ =~= stream_bytes(a + b + c, Stream::Stderr));
        }
        (out, err)
    }
}

/// The records a spill file holds, read front to back; reading stops at a
/// record that is cut short.
pub open spec fn parse_records(file: Seq<u8>) -> Seq<(Stream, Seq<u8>)>
    decreases file.len(),
{
    if file.len() < 9 {
        Seq::empty()
    } else {
        let n = le_value(file.subrange(1, 9)) as int;
        if 9 + n > file.len() {
            Seq::empty()
        } else {
            seq![(stream_of_tag(file[0]), file.subrange(9, 9 + n))] + parse_records(file.skip(9 + n))
        }
    }
}

/// The spill file that holds `segs`, one record after another.
pub open spec fn records_text(segs: Seq<(Stream, Seq<u8>)>) -> Seq<u8>
    decreases segs.len(),
{
    if segs.len() == 0 {
        Seq::empty()
    } else {
        record_of(segs[0].0, segs[0].1) + records_text(segs.drop_first())
    }
}

proof fn lemma_parse_one(stream: Stream, bytes: Seq<u8>, tail: Seq<u8>)
    requires
        bytes.len() <= u64::MAX,
    ensures
        parse_records(record_of(stream, bytes) + tail) == seq![(stream, bytes)] + parse_records(tail),
{
    let r = record_of(stream, bytes);
    let file = r + tail;
    let n = bytes.len() as int;
    spill_header_reads_back_what_was_written(stream, bytes);
    assert(file.subrange(1, 9) =~= r.subrange(1, 9));
    assert(le_value(file.subrange(1, 9)) as int == n);
    assert(file.subrange(9, 9 + n) =~= r.subrange(9, r.len() as int));
    assert(file.skip(9 + n) =~= tail);
    assert(file[0] == r[0]);
}

/// Reading a spill file back gives the records written to it, in order.
pub proof fn spill_file_reads_back_what_was_written(segs: Seq<(Stream, Seq<u8>)>)
    requires
        forall|i: int| 0 <= i < segs.len() ==> (#[trigger] segs[i]).1.len() <= u64::MAX,
    ensures
        parse_records(records_text(segs)) == segs,
    decreases segs.len(),
{
    if segs.len() == 0 {
        assert(parse_records(records_text(segs)) =~= segs);
    } else {
        let x = segs[0];
        let rest = segs.drop_first();
        assert forall|i: int| 0 <= i < rest.len() implies (#[trigger] rest[i]).1.len() <= u64::MAX by {
            assert(rest[i] == segs[i + 1]);
        }
        spill_file_reads_back_what_was_written(rest);
        lemma_parse_one(x.0, x.1, records_text(rest));
        assert(records_text(segs) == record_of(x.0, x.1) + records_text(rest));
        assert(seq![x] + rest =~= segs);
    }
}

fn sub_bytes(v: &[u8], lo: usize, hi: usize) -> (r: Vec<u8>)
    requires
        lo <= hi <= v@.len(),
    ensures
        r@ == v@.subrange(lo as int, hi as int),
{
    let mut r: Vec<u8> = Vec::new();
    let mut i = lo;
    while i < hi
        invariant
            lo <= i <= hi <= v@.len(),
            r@ == v@.subrange(lo as int, i as int),
        decreases hi - i,
    {
        r.push(v[i]);
        assert(v@.subrange(lo as int, i + 1) =~= v@.subrange(lo as int, i as int).push(v@[i as int]));
        i = i + 1;
    }
    r
}

/// The records of a spill file, front to back, up to the first one that is
/// cut short.
pub fn read_spill(file: &[u8]) -> (r: Vec<Segment>)
    ensures
        seg_views(r@) == parse_records(file@),
{
    let mut out: Vec<Segment> = Vec::new();
    let mut pos: usize = 0;
    assert(file@.skip(0) =~= file@);
    assert(seg_views(out@) =~= Seq::<(Stream, Seq<u8>)>::empty());
    loop
        invariant
            pos <= file@.len(),
            seg_views(out@) + parse_records(file@.skip(pos as int)) == parse_records(file@),
        ensures
            seg_views(out@) == parse_records(file@),
        decreases file@.len() - pos,
    {
        let ghost rest = file@.skip(pos as int);
        let remaining = file.len() - pos;
        if remaining < 9 {
            assert(parse_records(rest) =~= Seq::<(Stream, Seq<u8>)>::empty());
            assert(seg_views(out@) =~= seg_views(out@) + parse_records(rest));
            break;
        }
        let header = sub_bytes(file, pos, pos + 9);
        let (stream, len) = spill_header(header.as_slice());
        assert(header@.subrange(1, 9) =~= rest.subrange(1, 9));
        assert(header@[0] == rest[0]);
        if len > (remaining - 9) as u64 {
            assert(parse_records(rest) =~= Seq::<(Stream, Seq<u8>)>::empty());
            assert(seg_views(out@) =~= seg_views(out@) + parse_records(rest));
            break;
        }
        let end = pos + 9 + len as usize;
        let body = sub_bytes(file, pos + 9, end);
        assert(body@ =~= rest.subrange(9, 9 + len as int));
        assert(rest.skip(9 + len as int) =~= file@.skip(end as int));
        let ghost before = seg_views(out@);
        out.push(Segment { stream, bytes: body });
        assert(seg_views(out@) =~= before.push((stream, body@)));
        assert(seg_views(out@) + parse_records(file@.skip(end as int)) =~= before + parse_records(rest));
        pos = end;
    }
    out
}

} // verus!
