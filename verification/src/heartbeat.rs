//! Per-task idle timing for the `still running` heartbeat: when each task
//! last produced a line and was last reported, and which live tasks are due
//! a line now. Which tasks are live is the caller's to say.

use vstd::prelude::*;
use std::time::{Duration, Instant};
use crate::colors::{colored_label_outcome, plain_label, stream_task_label, TaskOrder};
use crate::duration::{
    duration_from_secs, format_duration, general_duration_text, millis_of, nanos_of, total_nanos,
    whole_millis,
};
use crate::order::{is_stable_sort, stable_sort_indices};
use crate::text::{chars_of, push_str, str_eq, string_of, string_views};

verus! {

#[verifier::external_type_specification]
#[verifier::external_body]
pub struct ExInstant(Instant);

/// Calls `Instant::now`. The reading depends on when it is taken, so
/// nothing is claimed of it.
#[verifier::external_body]
fn instant_now() -> Instant {
    Instant::now()
}

/// The time from `origin` to `at` that `Instant::saturating_duration_since`
/// gives for these two instants.
pub uninterp spec fn instant_span(at: Instant, origin: Instant) -> Duration;

/// Calls `Instant::saturating_duration_since`: the time from `origin` to
/// `at`, zero if `at` is earlier. It depends on the two instants alone;
/// its length is named, not spelled out.
#[verifier::external_body]
fn duration_since(at: Instant, origin: Instant) -> (r: Duration)
    ensures
        r == instant_span(at, origin),
{
    at.saturating_duration_since(origin)
}

/// Milliseconds from `origin` to `at`, keeping the low 64 bits.
pub open spec fn offset_of(origin: Instant, at: Instant) -> u64 {
    (whole_millis(instant_span(at, origin)) % 0x1_0000_0000_0000_0000) as u64
}

/// Milliseconds from `origin` to `at`, keeping the low 64 bits.
fn offset_ms(origin: Instant, at: Instant) -> (r: u64)
    ensures
        r == offset_of(origin, at),
{
    let d = duration_since(at, origin);
    let ms = millis_of(d);
    (ms % 0x1_0000_0000_0000_0000u128) as u64
}

/// `a - b`, or zero when `b` is larger.
pub open spec fn sat_sub(a: u64, b: u64) -> u64 {
    if a >= b {
        (a - b) as u64
    } else {
        0
    }
}

/// One task's timing: when it started, and the offsets (milliseconds from
/// the run's start) of its last line and its last heartbeat.
#[derive(Clone, Copy)]
pub struct TaskClock {
    origin: Instant,
    started: Instant,
    last_line_ms: u64,
    last_beat_ms: u64,
}

impl TaskClock {
    pub closed spec fn line_view(&self) -> u64 {
        self.last_line_ms
    }

    pub closed spec fn beat_view(&self) -> u64 {
        self.last_beat_ms
    }

    pub closed spec fn started_view(&self) -> Instant {
        self.started
    }

    /// The run's start, which the offsets are measured from.
    pub closed spec fn origin_view(&self) -> Instant {
        self.origin
    }

    /// A clock starting now: silent, and never reported, from this moment:
    /// both offsets are the start's own offset from `origin`.
    fn new(origin: Instant) -> (r: TaskClock)
        ensures
            r.origin_view() == origin,
            r.line_view() == offset_of(origin, r.started_view()),
            r.beat_view() == offset_of(origin, r.started_view()),
    {
        let started = instant_now();
        let ms = offset_ms(origin, started);
        TaskClock { origin, started, last_line_ms: ms, last_beat_ms: ms }
    }

    /// The offset of an instant read now.
    fn now_ms(&self) -> (r: u64)
        ensures
            exists|at: Instant| r == #[trigger] offset_of(self.origin_view(), at),
    {
        let at = instant_now();
        let r = offset_ms(self.origin, at);
        assert(r == offset_of(self.origin_view(), at));
        r
    }

    /// The task just produced a line: its last-line offset becomes the
    /// offset of an instant read now; nothing else changes.
    pub fn note_line(&mut self)
        ensures
            exists|at: Instant| final(self).line_view() == #[trigger] offset_of(old(self).origin_view(), at),
            final(self).beat_view() == old(self).beat_view(),
            final(self).started_view() == old(self).started_view(),
            final(self).origin_view() == old(self).origin_view(),
    {
        self.last_line_ms = self.now_ms();
    }

    /// The task was just reported: its last-beat offset becomes the offset
    /// of an instant read now; nothing else changes.
    pub fn note_beat(&mut self)
        ensures
            exists|at: Instant| final(self).beat_view() == #[trigger] offset_of(old(self).origin_view(), at),
            final(self).line_view() == old(self).line_view(),
            final(self).started_view() == old(self).started_view(),
            final(self).origin_view() == old(self).origin_view(),
    {
        self.last_beat_ms = self.now_ms();
    }

    pub fn last_line_ms(&self) -> (r: u64)
        ensures
            r == self.line_view(),
    {
        self.last_line_ms
    }

    pub fn last_beat_ms(&self) -> (r: u64)
        ensures
            r == self.beat_view(),
    {
        self.last_beat_ms
    }

    /// How long the task has been silent at offset `now_ms`.
    pub fn idle_ms_at(&self, now_ms: u64) -> (r: u64)
        ensures
            r == sat_sub(now_ms, self.line_view()),
    {
        now_ms.saturating_sub(self.last_line_ms)
    }

    /// How long since the task was last reported, at offset `now_ms`.
    pub fn since_beat_ms_at(&self, now_ms: u64) -> (r: u64)
        ensures
            r == sat_sub(now_ms, self.beat_view()),
    {
        now_ms.saturating_sub(self.last_beat_ms)
    }

    /// How long the task has been silent, now: the offset of an instant
    /// read now less the last line's, never below zero.
    pub fn idle_ms(&self) -> (r: u64)
        ensures
            exists|at: Instant| r == sat_sub(#[trigger] offset_of(self.origin_view(), at), self.line_view()),
    {
        let now = self.now_ms();
        self.idle_ms_at(now)
    }

    /// How long since the task was last reported, now: the offset of an
    /// instant read now less the last beat's, never below zero.
    pub fn since_beat_ms(&self) -> (r: u64)
        ensures
            exists|at: Instant| r == sat_sub(#[trigger] offset_of(self.origin_view(), at), self.beat_view()),
    {
        let now = self.now_ms();
        self.since_beat_ms_at(now)
    }

    /// How long the task has been running: the time from its start to an
    /// instant read now.
    pub fn elapsed(&self) -> (r: Duration)
        ensures
            exists|at: Instant| r == #[trigger] instant_span(at, self.started_view()),
    {
        let at = instant_now();
        let r = duration_since(at, self.started);
        assert(r == instant_span(at, self.started_view()));
        r
    }
}

/// The clock of each task name; a later entry for a name replaces an
/// earlier one.
pub open spec fn clock_map(v: Seq<(String, TaskClock)>) -> Map<Seq<char>, TaskClock>
    decreases v.len(),
{
    if v.len() == 0 {
        Map::empty()
    } else {
        clock_map(v.drop_last()).insert(v.last().0@, v.last().1)
    }
}

pub open spec fn distinct_names(v: Seq<(String, TaskClock)>) -> bool {
    forall|i: int, j: int| 0 <= i < j < v.len() ==> v[i].0@ != v[j].0@
}

pub proof fn lemma_clock_lookup(v: Seq<(String, TaskClock)>, k: Seq<char>)
    requires
        distinct_names(v),
    ensures
        forall|j: int|
            0 <= j < v.len() && v[j].0@ == k ==> clock_map(v).contains_key(k) && clock_map(v)[k]
                == v[j].1,
        (forall|j: int| 0 <= j < v.len() ==> v[j].0@ != k) ==> !clock_map(v).contains_key(k),
    decreases v.len(),
{
    if v.len() > 0 {
        let d = v.drop_last();
        lemma_clock_lookup(d, k);
        assert forall|j: int|
            0 <= j < v.len() && v[j].0@ == k implies clock_map(v).contains_key(k) && clock_map(v)[k]
            == v[j].1 by {
            if j < v.len() - 1 {
                assert(d[j] == v[j]);
            }
        }
        if forall|j: int| 0 <= j < v.len() ==> v[j].0@ != k {
            assert forall|j: int| 0 <= j < d.len() implies d[j].0@ != k by {
                assert(d[j] == v[j]);
            }
        }
    }
}

pub proof fn lemma_clock_update(v: Seq<(String, TaskClock)>, j: int, e: (String, TaskClock))
    requires
        distinct_names(v),
        0 <= j < v.len(),
        v[j].0@ == e.0@,
    ensures
        distinct_names(v.update(j, e)),
        clock_map(v.update(j, e)) == clock_map(v).insert(e.0@, e.1),
    decreases v.len(),
{
    let u = v.update(j, e);
    assert forall|a: int, b: int| 0 <= a < b < u.len() implies u[a].0@ != u[b].0@ by {
        assert(u[a].0@ == v[a].0@);
        assert(u[b].0@ == v[b].0@);
    }
    if j == v.len() - 1 {
        assert(u.drop_last() =~= v.drop_last());
        assert(clock_map(u) =~= clock_map(v).insert(e.0@, e.1));
    } else {
        let d = v.drop_last();
        lemma_clock_update(d, j, e);
        assert(u.drop_last() =~= d.update(j, e));
        assert(clock_map(u) =~= clock_map(v).insert(e.0@, e.1));
    }
}

/// The live names that have a clock, in the order given.
pub open spec fn with_clocks(live: Seq<Seq<char>>, clocks: Map<Seq<char>, TaskClock>) -> Seq<
    Seq<char>,
>
    decreases live.len(),
{
    if live.len() == 0 {
        Seq::empty()
    } else {
        let rest = with_clocks(live.drop_last(), clocks);
        if clocks.contains_key(live.last()) {
            rest.push(live.last())
        } else {
            rest
        }
    }
}

/// `r` holds the live tasks that have a clock, each with its clock, in
/// stable name order.
pub open spec fn candidates_of(
    live: Seq<Seq<char>>,
    clocks: Map<Seq<char>, TaskClock>,
    r: Seq<(String, TaskClock)>,
) -> bool {
    let picked = with_clocks(live, clocks);
    exists|perm: Seq<usize>|
        is_stable_sort(picked, perm) && r.len() == picked.len() && forall|k: int|
            0 <= k < r.len() ==> (#[trigger] r[k]).0@ == picked[perm[k] as int] && r[k].1
                == clocks[picked[perm[k] as int]]
}

/// Whether a clock is due a line at offset `now_ms`: silent, and not
/// reported, for at least the interval.
pub open spec fn is_due(c: TaskClock, interval_ms: u64, now_ms: u64) -> bool {
    sat_sub(now_ms, c.line_view()) >= interval_ms && sat_sub(now_ms, c.beat_view()) >= interval_ms
}

/// The entries of `c` that are due, in order.
pub open spec fn due_of(c: Seq<(String, TaskClock)>, interval_ms: u64, now_ms: u64) -> Seq<
    (String, TaskClock),
>
    decreases c.len(),
{
    if c.len() == 0 {
        Seq::empty()
    } else {
        let rest = due_of(c.drop_last(), interval_ms, now_ms);
        if is_due(c.last().1, interval_ms, now_ms) {
            rest.push(c.last())
        } else {
            rest
        }
    }
}

/// One `start` of `name`: the clocks after hold `name` with `clock`, and
/// every other clock as before.
pub open spec fn start_step(
    before: Map<Seq<char>, TaskClock>,
    name: Seq<char>,
    clock: TaskClock,
    after: Map<Seq<char>, TaskClock>,
) -> bool {
    &&& after.dom() == before.dom().insert(name)
    &&& after[name] == clock
    &&& forall|k: Seq<char>| k != name && before.contains_key(k) ==> after[k] == before[k]
}

/// Starting from no clocks and starting each of `names` in turn, a task
/// has a clock exactly when it was started, and its clock is the one its
/// latest start returned.
pub proof fn clocks_after_starts(
    names: Seq<Seq<char>>,
    maps: Seq<Map<Seq<char>, TaskClock>>,
    started: Seq<TaskClock>,
)
    requires
        maps.len() == names.len() + 1,
        started.len() == names.len(),
        maps[0] == Map::<Seq<char>, TaskClock>::empty(),
        forall|i: int| 0 <= i < names.len() ==> start_step(maps[i], names[i], started[i], #[trigger] maps[i + 1]),
    ensures
        forall|t: Seq<char>| maps.last().contains_key(t) <==> names.contains(t),
        forall|i: int|
            0 <= i < names.len() && (forall|j: int| i < j < names.len() ==> names[j] != names[i])
                ==> maps.last()[#[trigger] names[i]] == started[i],
    decreases names.len(),
{
    let n = names.len() as int;
    if n > 0 {
        let pn = names.drop_last();
        let pm = maps.drop_last();
        let ps = started.drop_last();
        assert forall|i: int| 0 <= i < pn.len() implies start_step(pm[i], pn[i], ps[i], #[trigger] pm[i + 1]) by {
            assert(start_step(maps[i], names[i], started[i], maps[i + 1]));
        }
        clocks_after_starts(pn, pm, ps);
        let before = maps[n - 1];
        let after = maps[n];
        assert(start_step(maps[n - 1], names[n - 1], started[n - 1], maps[n]));
        assert(pm.last() == before);
        assert forall|t: Seq<char>| after.contains_key(t) <==> names.contains(t) by {
            if names.contains(t) {
                let j = choose|j: int| 0 <= j < names.len() && names[j] == t;
                if j < n - 1 {
                    assert(pn[j] == t);
                }
            }
            if pn.contains(t) {
                let j = choose|j: int| 0 <= j < pn.len() && pn[j] == t;
                assert(names[j] == t);
            }
            if t == names[n - 1] {
                assert(names.contains(t));
            }
        }
        assert forall|i: int|
            0 <= i < names.len() && (forall|j: int| i < j < names.len() ==> names[j] != names[i])
                implies after[#[trigger] names[i]] == started[i] by {
            if i < n - 1 {
                assert(names[n - 1] != names[i]);
                assert(pn[i] == names[i]);
                assert forall|j: int| i < j < pn.len() implies pn[j] != pn[i] by {
                    assert(names[j] != names[i]);
                }
                assert(pn.contains(names[i]));
                assert(before.contains_key(names[i]));
            }
        }
    }
}

/// Which clocks are due a heartbeat at `now_ms`: an entry is picked
/// exactly when its task has been silent for the whole interval and was
/// not reported within it, so a task reported less than an interval ago is
/// never picked, however long it has been silent. Picked entries keep
/// their order.
pub proof fn due_means_silent_and_unreported(c: Seq<(String, TaskClock)>, interval_ms: u64, now_ms: u64)
    ensures
        forall|k: int|
            0 <= k < due_of(c, interval_ms, now_ms).len() ==> c.contains(
                #[trigger] due_of(c, interval_ms, now_ms)[k],
            ) && (interval_ms == 0 || now_ms >= due_of(c, interval_ms, now_ms)[k].1.line_view() + interval_ms)
                && (interval_ms == 0 || now_ms >= due_of(c, interval_ms, now_ms)[k].1.beat_view() + interval_ms),
        forall|j: int|
            0 <= j < c.len() && (interval_ms == 0 || now_ms >= (#[trigger] c[j]).1.line_view() + interval_ms) && (
            interval_ms == 0 || now_ms >= c[j].1.beat_view() + interval_ms) ==> due_of(c, interval_ms, now_ms).contains(
                c[j],
            ),
        due_of(c, interval_ms, now_ms).len() <= c.len(),
    decreases c.len(),
{
    let d = due_of(c, interval_ms, now_ms);
    if c.len() > 0 {
        let init = c.drop_last();
        let di = due_of(init, interval_ms, now_ms);
        due_means_silent_and_unreported(init, interval_ms, now_ms);
        assert forall|k: int| 0 <= k < d.len() implies c.contains(#[trigger] d[k]) && (interval_ms == 0 || now_ms
            >= d[k].1.line_view() + interval_ms) && (interval_ms == 0 || now_ms >= d[k].1.beat_view()
            + interval_ms) by {
            if k < di.len() {
                assert(d[k] == di[k]);
                let j = choose|j: int| 0 <= j < init.len() && init[j] == di[k];
                assert(c[j] == init[j]);
            } else {
                assert(d[k] == c.last());
                assert(c[c.len() - 1] == c.last());
            }
        }
        assert forall|j: int|
            0 <= j < c.len() && (interval_ms == 0 || now_ms >= (#[trigger] c[j]).1.line_view() + interval_ms) && (
            interval_ms == 0 || now_ms >= c[j].1.beat_view() + interval_ms) implies d.contains(c[j]) by {
            if j < c.len() - 1 {
                assert(init[j] == c[j]);
                assert(di.contains(c[j]));
                let k = choose|k: int| 0 <= k < di.len() && di[k] == c[j];
                assert(d[k] == di[k]);
            } else {
                assert(c[j] == c.last());
                assert(d[d.len() - 1] == c.last());
            }
        }
    }
}

/// `d` lists entries of `c`, each once and in `c`'s order: the `k`-th is
/// entry `idx[k]`, with the indices rising.
pub open spec fn picks_in_order(c: Seq<(String, TaskClock)>, d: Seq<(String, TaskClock)>, idx: Seq<int>) -> bool {
    &&& idx.len() == d.len()
    &&& forall|k: int| 0 <= k < idx.len() ==> 0 <= #[trigger] idx[k] < c.len() && d[k] == c[idx[k]]
    &&& forall|k: int, l: int| 0 <= k < l < idx.len() ==> #[trigger] idx[k] < #[trigger] idx[l]
}

/// The due entries are some of the candidates, each once, in the
/// candidates' order.
pub proof fn due_entries_keep_their_order(c: Seq<(String, TaskClock)>, interval_ms: u64, now_ms: u64)
    ensures
        exists|idx: Seq<int>| #[trigger] picks_in_order(c, due_of(c, interval_ms, now_ms), idx),
    decreases c.len(),
{
    let d = due_of(c, interval_ms, now_ms);
    if c.len() == 0 {
        let idx = Seq::<int>::empty();
        assert(picks_in_order(c, d, idx));
    } else {
        let init = c.drop_last();
        let di = due_of(init, interval_ms, now_ms);
        due_entries_keep_their_order(init, interval_ms, now_ms);
        let idx0 = choose|idx: Seq<int>| #[trigger] picks_in_order(init, di, idx);
        if d.len() == di.len() {
            assert forall|k: int| 0 <= k < idx0.len() implies 0 <= #[trigger] idx0[k] < c.len() && d[k] == c[idx0[k]] by {
                assert(init[idx0[k]] == c[idx0[k]]);
            }
            assert(picks_in_order(c, d, idx0));
        } else {
            let idx = idx0.push(c.len() - 1);
            assert(d == di.push(c.last()));
            assert forall|k: int| 0 <= k < idx.len() implies 0 <= #[trigger] idx[k] < c.len() && d[k] == c[idx[k]] by {
                if k < idx0.len() {
                    assert(idx[k] == idx0[k]);
                    assert(init[idx0[k]] == c[idx0[k]]);
                } else {
                    assert(c[c.len() - 1] == c.last());
                }
            }
            assert forall|k: int, l: int| 0 <= k < l < idx.len() implies #[trigger] idx[k] < #[trigger] idx[l] by {
                if l < idx0.len() {
                    assert(idx[k] == idx0[k] && idx[l] == idx0[l]);
                } else {
                    assert(idx[k] == idx0[k]);
                }
            }
            assert(picks_in_order(c, d, idx));
        }
    }
}

/// Every task's clock for one run, keyed by task name, with the run-start
/// instant their offsets are measured from.
pub struct TaskClocks {
    origin: Instant,
    clocks: Vec<(String, TaskClock)>,
}

impl TaskClocks {
    /// Names are distinct, and every clock measures from the run's start.
    pub closed spec fn wf(&self) -> bool {
        &&& distinct_names(self.clocks@)
        &&& forall|j: int| 0 <= j < self.clocks@.len() ==> (#[trigger] self.clocks@[j]).1.origin_view() == self.origin
    }

    /// The run's start, which every clock's offsets are measured from.
    pub closed spec fn origin_view(&self) -> Instant {
        self.origin
    }

    /// The clock of each task that has one.
    pub closed spec fn map(&self) -> Map<Seq<char>, TaskClock> {
        clock_map(self.clocks@)
    }

    /// No clocks yet, measured from now.
    pub fn new() -> (r: TaskClocks)
        ensures
            r.wf(),
            r.map() == Map::<Seq<char>, TaskClock>::empty(),
    {
        TaskClocks { origin: instant_now(), clocks: Vec::new() }
    }

    fn find(&self, task: &str) -> (r: Option<usize>)
        ensures
            r matches Some(j) ==> j < self.clocks.len() && self.clocks@[j as int].0@ == task@,
            r is None ==> forall|j: int| 0 <= j < self.clocks.len() ==> self.clocks@[j].0@ != task@,
    {
        let mut i: usize = 0;
        while i < self.clocks.len()
            invariant
                i <= self.clocks.len(),
                forall|j: int| 0 <= j < i ==> self.clocks@[j].0@ != task@,
            decreases self.clocks.len() - i,
        {
            if str_eq(self.clocks[i].0.as_str(), task) {
                return Some(i);
            }
            i = i + 1;
        }
        None
    }

    fn put(&mut self, task: &str, clock: TaskClock)
        requires
            old(self).wf(),
            clock.origin_view() == old(self).origin_view(),
        ensures
            final(self).wf(),
            final(self).origin_view() == old(self).origin_view(),
            final(self).map() == old(self).map().insert(task@, clock),
    {
        let key = string_of(chars_of(task).as_slice());
        match self.find(task) {
            Some(j) => {
                proof {
                    lemma_clock_update(self.clocks@, j as int, (key, clock));
                }
                let ghost before = self.clocks@;
                self.clocks.set(j, (key, clock));
                assert forall|i: int| 0 <= i < self.clocks@.len() implies (#[trigger] self.clocks@[i]).1.origin_view()
                    == self.origin by {
                    if i != j {
                        assert(self.clocks@[i] == before[i]);
                    }
                }
            },
            None => {
                let ghost before = self.clocks@;
                self.clocks.push((key, clock));
                assert(self.clocks@.drop_last() =~= before);
                assert forall|a: int, b: int| 0 <= a < b < self.clocks@.len() implies self.clocks@[a].0@
                    != self.clocks@[b].0@ by {
                    if b == self.clocks@.len() - 1 {
                        assert(self.clocks@[a] == before[a]);
                    }
                }
                assert forall|i: int| 0 <= i < self.clocks@.len() implies (#[trigger] self.clocks@[i]).1.origin_view()
                    == self.origin by {
                    if i < before.len() {
                        assert(self.clocks@[i] == before[i]);
                    }
                }
            },
        }
    }

    /// Starts `task`'s clock and returns it: silent, and never reported,
    /// from now: both offsets are those of the instant the clock starts,
    /// read at this call. A clock it had before is replaced.
    pub fn start(&mut self, task: &str) -> (r: TaskClock)
        requires
            old(self).wf(),
        ensures
            final(self).wf(),
            start_step(old(self).map(), task@, r, final(self).map()),
            final(self).map().dom() == old(self).map().dom().insert(task@),
            final(self).origin_view() == old(self).origin_view(),
            final(self).map()[task@].origin_view() == old(self).origin_view(),
            final(self).map()[task@].line_view() == offset_of(
                old(self).origin_view(),
                final(self).map()[task@].started_view(),
            ),
            final(self).map()[task@].beat_view() == final(self).map()[task@].line_view(),
            forall|k: Seq<char>| k != task@ && old(self).map().contains_key(k) ==> final(self).map()[k]
                == old(self).map()[k],
    {
        let clock = TaskClock::new(self.origin);
        self.put(task, clock);
        assert(self.map().dom() =~= old(self).map().dom().insert(task@));
        clock
    }

    /// `task`'s clock, if it has one.
    pub fn get(&self, task: &str) -> (r: Option<TaskClock>)
        requires
            self.wf(),
        ensures
            r == (if self.map().contains_key(task@) {
                Some(self.map()[task@])
            } else {
                None
            }),
    {
        proof {
            lemma_clock_lookup(self.clocks@, task@);
        }
        match self.find(task) {
            Some(j) => Some(self.clocks[j].1),
            None => None,
        }
    }

    /// `task` just produced a line; a task with no clock is left alone.
    pub fn note_line(&mut self, task: &str)
        requires
            old(self).wf(),
        ensures
            final(self).wf(),
            final(self).map().dom() == old(self).map().dom(),
            final(self).origin_view() == old(self).origin_view(),
            old(self).map().contains_key(task@) ==> final(self).map()[task@].beat_view() == old(
                self,
            ).map()[task@].beat_view() && final(self).map()[task@].started_view() == old(
                self,
            ).map()[task@].started_view() && final(self).map()[task@].origin_view() == old(self).origin_view()
                && exists|at: Instant| final(self).map()[task@].line_view() == #[trigger] offset_of(
                old(self).origin_view(),
                at,
            ),
            forall|k: Seq<char>| k != task@ && old(self).map().contains_key(k) ==> final(self).map()[k]
                == old(self).map()[k],
    {
        proof {
            lemma_clock_lookup(self.clocks@, task@);
        }
        match self.find(task) {
            Some(j) => {
                let mut c = self.clocks[j].1;
                c.note_line();
                self.put(task, c);
                assert(self.map().dom() =~= old(self).map().dom());
            },
            None => {},
        }
    }

    /// `task` was just reported; a task with no clock is left alone.
    pub fn note_beat(&mut self, task: &str)
        requires
            old(self).wf(),
        ensures
            final(self).wf(),
            final(self).map().dom() == old(self).map().dom(),
            final(self).origin_view() == old(self).origin_view(),
            old(self).map().contains_key(task@) ==> final(self).map()[task@].line_view() == old(
                self,
            ).map()[task@].line_view() && final(self).map()[task@].started_view() == old(
                self,
            ).map()[task@].started_view() && final(self).map()[task@].origin_view() == old(self).origin_view()
                && exists|at: Instant| final(self).map()[task@].beat_view() == #[trigger] offset_of(
                old(self).origin_view(),
                at,
            ),
            forall|k: Seq<char>| k != task@ && old(self).map().contains_key(k) ==> final(self).map()[k]
                == old(self).map()[k],
    {
        proof {
            lemma_clock_lookup(self.clocks@, task@);
        }
        match self.find(task) {
            Some(j) => {
                let mut c = self.clocks[j].1;
                c.note_beat();
                self.put(task, c);
                assert(self.map().dom() =~= old(self).map().dom());
            },
            None => {},
        }
    }

    /// The clocks a tick considers, given who is live right now: each live
    /// task that has a clock, in stable name order. A live task with no
    /// clock is left out, and so is a clock whose task is not live.
    pub fn candidates(&self, live: &Vec<String>) -> (r: Vec<(String, TaskClock)>)
        requires
            self.wf(),
        ensures
            candidates_of(string_views(live@), self.map(), r@),
    {
        let ghost lv = string_views(live@);
        let mut picked: Vec<(String, TaskClock)> = Vec::new();
        let mut i: usize = 0;
        while i < live.len()
            invariant
                i <= live.len(),
                self.wf(),
                lv == string_views(live@),
                string_views(picked@.map_values(|e: (String, TaskClock)| e.0)) == with_clocks(
                    lv.take(i as int),
                    self.map(),
                ),
                forall|k: int|
                    0 <= k < picked.len() ==> self.map().contains_key((#[trigger] picked@[k]).0@)
                        && picked@[k].1 == self.map()[picked@[k].0@],
            decreases live.len() - i,
        {
            assert(lv.take(i + 1).drop_last() =~= lv.take(i as int));
            assert(lv.take(i + 1).last() == live@[i as int]@);
            let ghost before = string_views(picked@.map_values(|e: (String, TaskClock)| e.0));
            match self.get(live[i].as_str()) {
                Some(c) => {
                    picked.push((live[i].clone(), c));
                    assert(string_views(picked@.map_values(|e: (String, TaskClock)| e.0))
                        =~= before.push(live@[i as int]@));
                },
                None => {
                    assert(string_views(picked@.map_values(|e: (String, TaskClock)| e.0)) =~= before);
                },
            }
            i = i + 1;
        }
        assert(lv.take(i as int) =~= lv);
        let ghost pv = with_clocks(lv, self.map());
        let mut keys: Vec<Vec<char>> = Vec::new();
        let mut k: usize = 0;
        while k < picked.len()
            invariant
                k <= picked.len(),
                keys.len() == k,
                pv == string_views(picked@.map_values(|e: (String, TaskClock)| e.0)),
                forall|m: int| 0 <= m < k ==> #[trigger] keys@[m]@ == picked@[m].0@,
            decreases picked.len() - k,
        {
            assert(pv[k as int] == picked@[k as int].0@);
            keys.push(chars_of(picked[k].0.as_str()));
            k = k + 1;
        }
        assert(keys@.map_values(|x: Vec<char>| x@) =~= pv);
        let perm = stable_sort_indices(&keys);
        let mut out: Vec<(String, TaskClock)> = Vec::new();
        let mut j: usize = 0;
        while j < perm.len()
            invariant
                j <= perm.len(),
                is_stable_sort(pv, perm@),
                pv.len() == picked.len(),
                pv == string_views(picked@.map_values(|e: (String, TaskClock)| e.0)),
                forall|m: int|
                    0 <= m < picked.len() ==> self.map().contains_key((#[trigger] picked@[m]).0@)
                        && picked@[m].1 == self.map()[picked@[m].0@],
                out.len() == j,
                forall|m: int|
                    0 <= m < j ==> (#[trigger] out@[m]).0@ == pv[perm@[m] as int] && out@[m].1
                        == self.map()[pv[perm@[m] as int]],
            decreases perm.len() - j,
        {
            let p = perm[j];
            assert(p < picked.len());
            assert(pv[p as int] == picked@[p as int].0@);
            out.push((picked[p].0.clone(), picked[p].1));
            j = j + 1;
        }
        assert(candidates_of(lv, self.map(), out@));
        out
    }

    /// The live tasks due a line at offset `now_ms`: candidates silent, and
    /// not reported, for at least `interval_ms`, in candidate order.
    pub fn due_beats_at(&self, live: &Vec<String>, interval_ms: u64, now_ms: u64) -> (r: Vec<
        (String, TaskClock),
    >)
        requires
            self.wf(),
        ensures
            exists|c: Seq<(String, TaskClock)>|
                candidates_of(string_views(live@), self.map(), c) && r@ == due_of(c, interval_ms, now_ms),
    {
        let c = self.candidates(live);
        let mut out: Vec<(String, TaskClock)> = Vec::new();
        let mut i: usize = 0;
        while i < c.len()
            invariant
                i <= c.len(),
                out@ == due_of(c@.take(i as int), interval_ms, now_ms),
            decreases c.len() - i,
        {
            assert(c@.take(i + 1).drop_last() =~= c@.take(i as int));
            let entry = &c[i];
            if entry.1.idle_ms_at(now_ms) >= interval_ms && entry.1.since_beat_ms_at(now_ms)
                >= interval_ms {
                out.push((entry.0.clone(), entry.1));
            }
            i = i + 1;
        }
        assert(c@.take(i as int) =~= c@);
        out
    }

    /// Milliseconds from the run's start to an instant read now.
    pub fn now_ms(&self) -> (r: u64)
        ensures
            exists|at: Instant| r == #[trigger] offset_of(self.origin_view(), at),
    {
        let at = instant_now();
        let r = offset_ms(self.origin, at);
        assert(r == offset_of(self.origin_view(), at));
        r
    }
}

impl Default for TaskClocks {
    fn default() -> (r: TaskClocks)
        ensures
            r.wf(),
            r.map() == Map::<Seq<char>, TaskClock>::empty(),
    {
        TaskClocks::new()
    }
}

/// The live tasks due a line now.
pub fn due_beats(clocks: &TaskClocks, live: &Vec<String>, interval_ms: u64) -> (r: Vec<
    (String, TaskClock),
>)
    requires
        clocks.wf(),
    ensures
        exists|now: u64, c: Seq<(String, TaskClock)>|
            candidates_of(string_views(live@), clocks.map(), c) && r@ == due_of(c, interval_ms, now),
{
    let now = clocks.now_ms();
    clocks.due_beats_at(live, interval_ms, now)
}

/// The longest a tick sleeps: one second.
pub fn max_wake() -> (r: Duration)
    ensures
        total_nanos(r) == 1_000_000_000,
{
    duration_from_secs(1)
}

/// How long a tick sleeps between wakes: the interval, or one second if the
/// interval is longer.
pub fn wake_granularity(interval: Duration) -> (r: Duration)
    ensures
        total_nanos(r) == if total_nanos(interval) <= 1_000_000_000 {
            total_nanos(interval)
        } else {
            1_000_000_000
        },
{
    if nanos_of(interval) <= 1_000_000_000 {
        interval
    } else {
        max_wake()
    }
}

/// The interval in whole milliseconds, saturating at `u64::MAX` rather than
/// keeping only the low bits.
pub fn saturating_ms(interval: Duration) -> (r: u64)
    ensures
        r == if whole_millis(interval) > u64::MAX {
            u64::MAX as nat
        } else {
            whole_millis(interval)
        },
{
    let ms = millis_of(interval);
    if ms > u64::MAX as u128 {
        u64::MAX
    } else {
        ms as u64
    }
}

/// What a label on a stream may read: coloured as `colored` decides when
/// the stream takes colour, plain otherwise.
pub open spec fn label_for_stream(
    order: Seq<Seq<char>>,
    task: Seq<char>,
    no_prefix: bool,
    takes_color: bool,
    label: Seq<char>,
) -> bool {
    if takes_color {
        colored_label_outcome(order, task, no_prefix, label)
    } else {
        label == plain_label(task, no_prefix)
    }
}

/// The text of a heartbeat line after its label.
pub open spec fn beat_text(label: Seq<char>, elapsed_ms: nat) -> Seq<char> {
    label + " still running ("@ + general_duration_text(elapsed_ms) + ")\n"@
}

/// One heartbeat line: the task's label (coloured only when stderr takes
/// colour), `still running`, and the elapsed time in otto's duration
/// format, ended by a newline.
pub fn beat_line(order: &TaskOrder, task: &str, elapsed: Duration, no_prefix: bool, stderr_color: bool) -> (r:
    String)
    ensures
        whole_millis(elapsed) <= u64::MAX ==> exists|label: Seq<char>|
            #[trigger] label_for_stream(order@, task@, no_prefix, stderr_color, label) && r@
                == beat_text(label, whole_millis(elapsed)),
{
    let label = stream_task_label(order, task, no_prefix, stderr_color);
    let took = format_duration(elapsed);
    let mut out: Vec<char> = Vec::new();
    push_str(&mut out, label.as_str());
    push_str(&mut out, " still running (");
    push_str(&mut out, took.as_str());
    push_str(&mut out, ")\n");
    let r = string_of(out.as_slice());
    proof {
        let l = label@;
        assert(label_for_stream(order@, task@, no_prefix, stderr_color, l));
        if whole_millis(elapsed) <= u64::MAX {
            assert(r@ =~= beat_text(l, whole_millis(elapsed)));
        }
    }
    r
}

} // verus!
