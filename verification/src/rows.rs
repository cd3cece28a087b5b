//! The live region's rows: which running tasks are on the screen, which wait
//! behind the overflow row, and the bar changes that keep the screen in step.
//!
//! The screen always shows the first `cap` running tasks in the order they
//! started; the rest are counted by one `... and N more running` row. The
//! bars themselves belong to the caller, which applies the [`BarOp`]s each
//! call returns.

use vstd::prelude::*;
use crate::fmt::{dec, push_dec};
use crate::region::{sanitize, sanitized, truncate, truncated, MAX_NAME_WIDTH};
use crate::text::{chars_of, push_str, str_eq, string_of};

verus! {

/// One running task: its name as the scheduler spells it, and the name as
/// it is safe to draw.
pub struct RowEntry {
    pub name: String,
    pub label: String,
}

/// One change to the bars on the screen.
pub enum BarOp {
    /// Draw the rule between scrollback and the rows.
    AddSeparator,
    /// Give the named task a bar, after the last row and before the
    /// overflow row.
    AttachRow(String),
    /// Take the bar of the row at this index away.
    RemoveRow(usize),
    /// Draw the `... and N more running` row.
    AddOverflow,
    /// Take the overflow row away.
    RemoveOverflow,
    /// Take every bar away and clear the region.
    ClearAll,
}

pub open spec fn names_of_rows(v: Seq<RowEntry>) -> Seq<Seq<char>> {
    v.map_values(|e: RowEntry| e.name@)
}

pub open spec fn labels_of_rows(v: Seq<RowEntry>) -> Seq<Seq<char>> {
    v.map_values(|e: RowEntry| e.label@)
}

/// What the screen shows: the separator, the task rows by name, and the
/// overflow row.
pub open spec fn apply_op(s: (bool, Seq<Seq<char>>, bool), op: BarOp) -> (bool, Seq<Seq<char>>, bool) {
    match op {
        BarOp::AddSeparator => (true, s.1, s.2),
        BarOp::AttachRow(name) => (s.0, s.1.push(name@), s.2),
        BarOp::RemoveRow(i) => (s.0, s.1.remove(i as int), s.2),
        BarOp::AddOverflow => (s.0, s.1, true),
        BarOp::RemoveOverflow => (s.0, s.1, false),
        BarOp::ClearAll => (false, Seq::empty(), false),
    }
}

/// The screen after applying `ops` in order.
pub open spec fn apply_ops(s: (bool, Seq<Seq<char>>, bool), ops: Seq<BarOp>) -> (bool, Seq<Seq<char>>, bool)
    decreases ops.len(),
{
    if ops.len() == 0 {
        s
    } else {
        apply_op(apply_ops(s, ops.drop_last()), ops.last())
    }
}

proof fn lemma_apply_push(s: (bool, Seq<Seq<char>>, bool), ops: Seq<BarOp>, op: BarOp)
    ensures
        apply_ops(s, ops.push(op)) == apply_op(apply_ops(s, ops), op),
{
    assert(ops.push(op).drop_last() =~= ops);
}

/// Applying two runs of changes is applying the first, then the second.
pub proof fn lemma_apply_concat(s: (bool, Seq<Seq<char>>, bool), a: Seq<BarOp>, b: Seq<BarOp>)
    ensures
        apply_ops(s, a + b) == apply_ops(apply_ops(s, a), b),
    decreases b.len(),
{
    if b.len() == 0 {
        assert(a + b =~= a);
    } else {
        lemma_apply_concat(s, a, b.drop_last());
        assert((a + b).drop_last() =~= a + b.drop_last());
        assert((a + b).last() == b.last());
    }
}

/// The widest sanitized name in `names`.
pub open spec fn widest(names: Seq<Seq<char>>) -> nat
    decreases names.len(),
{
    if names.len() == 0 {
        0
    } else {
        let w = sanitized(names.last()).len();
        let rest = widest(names.drop_last());
        if w > rest {
            w
        } else {
            rest
        }
    }
}

pub open spec fn min_nat(a: nat, b: nat) -> nat {
    if a <= b {
        a
    } else {
        b
    }
}

pub open spec fn overflow_text(waiting: nat) -> Seq<char> {
    "... and "@ + dec(waiting) + " more running"@
}

/// A copy of `s`.
fn owned(s: &str) -> (r: String)
    ensures
        r@ == s@,
{
    string_of(chars_of(s).as_slice())
}

/// The index of the entry named `name`, if any.
fn find(v: &Vec<RowEntry>, name: &str) -> (r: Option<usize>)
    ensures
        match r {
            Some(i) => i < v@.len() && v@[i as int].name@ == name@,
            None => !names_of_rows(v@).contains(name@),
        },
{
    let mut i: usize = 0;
    while i < v.len()
        invariant
            i <= v@.len(),
            forall|k: int| 0 <= k < i ==> v@[k].name@ != name@,
        decreases v@.len() - i,
    {
        if str_eq(v[i].name.as_str(), name) {
            return Some(i);
        }
        i = i + 1;
    }
    assert forall|k: int| 0 <= k < names_of_rows(v@).len() implies names_of_rows(v@)[k] != name@ by {
        assert(names_of_rows(v@)[k] == v@[k].name@);
    }
    None
}

/// The running tasks' rows.
pub struct Region {
    drawn: Vec<RowEntry>,
    waiting: Vec<RowEntry>,
    separator: bool,
    overflow: bool,
    name_width: usize,
}

impl Region {
    /// Every running task, in the order it started: the ones on the screen,
    /// then the ones waiting.
    pub closed spec fn running(&self) -> Seq<Seq<char>> {
        names_of_rows(self.drawn@) + names_of_rows(self.waiting@)
    }

    /// The tasks on the screen, top to bottom.
    pub closed spec fn drawn_names(&self) -> Seq<Seq<char>> {
        names_of_rows(self.drawn@)
    }

    /// The screen as the bars draw it.
    pub closed spec fn screen(&self) -> (bool, Seq<Seq<char>>, bool) {
        (self.separator, names_of_rows(self.drawn@), self.overflow)
    }

    pub closed spec fn name_width_view(&self) -> nat {
        self.name_width as nat
    }

    pub closed spec fn labels_ok(v: Seq<RowEntry>) -> bool {
        forall|i: int| 0 <= i < v.len() ==> (#[trigger] v[i]).label@ == sanitized(v[i].name@)
    }

    /// The invariant: a task runs once; each label is its name made safe;
    /// the separator stands while a row does, the overflow row while a task
    /// waits, and nobody waits while no row is drawn.
    pub closed spec fn wf(&self) -> bool {
        &&& self.running().no_duplicates()
        &&& Self::labels_ok(self.drawn@)
        &&& Self::labels_ok(self.waiting@)
        &&& self.separator == (self.drawn@.len() > 0)
        &&& self.overflow == (self.waiting@.len() > 0)
        &&& (self.waiting@.len() > 0 ==> self.drawn@.len() > 0)
    }

    /// The screen shows the first `cap` running tasks.
    pub open spec fn shows_first(&self, cap: nat) -> bool {
        self.drawn_names() == self.running().take(min_nat(cap, self.running().len()) as int)
    }

    /// An empty region for a run over `task_names`, its name column as wide
    /// as the widest sanitized name, at most [`MAX_NAME_WIDTH`].
    pub fn new(task_names: &Vec<String>) -> (r: Region)
        ensures
            r.wf(),
            r.running() == Seq::<Seq<char>>::empty(),
            r.screen() == (false, Seq::<Seq<char>>::empty(), false),
            r.name_width_view() == min_nat(widest(task_names@.map_values(|s: String| s@)), MAX_NAME_WIDTH as nat),
    {
        let ghost names = task_names@.map_values(|s: String| s@);
        let mut w: usize = 0;
        let mut i: usize = 0;
        while i < task_names.len()
            invariant
                i <= task_names@.len(),
                names == task_names@.map_values(|s: String| s@),
                w == min_nat(widest(names.take(i as int)), MAX_NAME_WIDTH as nat),
            decreases task_names@.len() - i,
        {
            let label = sanitize(task_names[i].as_str());
            let n = chars_of(label.as_str()).len();
            assert(names.take(i + 1).drop_last() =~= names.take(i as int));
            assert(names.take(i + 1).last() == task_names@[i as int]@);
            if n > w {
                w = if n < MAX_NAME_WIDTH {
                    n
                } else {
                    MAX_NAME_WIDTH
                };
            }
            i = i + 1;
        }
        assert(names.take(i as int) =~= names);
        let r = Region { drawn: Vec::new(), waiting: Vec::new(), separator: false, overflow: false, name_width: w };
        assert(names_of_rows(r.drawn@) + names_of_rows(r.waiting@) =~= Seq::<Seq<char>>::empty());
        assert(names_of_rows(r.drawn@) =~= Seq::<Seq<char>>::empty());
        r
    }

    /// Whether anything is on the screen.
    pub fn is_drawn(&self) -> (r: bool)
        requires
            self.wf(),
        ensures
            r == (self.drawn_names().len() > 0),
    {
        self.separator
    }

    /// How wide the name column is.
    pub fn name_width(&self) -> (r: usize)
        ensures
            r == self.name_width_view(),
    {
        self.name_width
    }

    /// How many running tasks the overflow row stands in for.
    pub fn waiting_len(&self) -> (r: usize)
        ensures
            r == self.running().len() - self.drawn_names().len(),
    {
        self.waiting.len()
    }

    /// Whether the `... and N more running` row is on the screen.
    pub fn has_overflow_row(&self) -> (r: bool)
        ensures
            r == self.screen().2,
    {
        self.overflow
    }

    /// The names of the tasks on the screen, top to bottom.
    pub fn row_names(&self) -> (r: Vec<String>)
        ensures
            r@.map_values(|s: String| s@) == self.drawn_names(),
    {
        let mut r: Vec<String> = Vec::new();
        let mut i: usize = 0;
        while i < self.drawn.len()
            invariant
                i <= self.drawn@.len(),
                r@.map_values(|s: String| s@) == names_of_rows(self.drawn@).take(i as int),
            decreases self.drawn@.len() - i,
        {
            r.push(owned(self.drawn[i].name.as_str()));
            assert(names_of_rows(self.drawn@).take(i + 1) =~= names_of_rows(self.drawn@).take(i as int).push(
                self.drawn@[i as int].name@,
            ));
            assert(r@.map_values(|s: String| s@) =~= names_of_rows(self.drawn@).take(i as int).push(
                self.drawn@[i as int].name@,
            ));
            i = i + 1;
        }
        assert(names_of_rows(self.drawn@).take(i as int) =~= names_of_rows(self.drawn@));
        r
    }

    /// The labels on the screen, top to bottom: each row's name made safe.
    pub fn row_labels(&self) -> (r: Vec<String>)
        requires
            self.wf(),
        ensures
            r@.len() == self.drawn_names().len(),
            forall|i: int| 0 <= i < r@.len() ==> (#[trigger] r@[i])@ == sanitized(self.drawn_names()[i]),
    {
        let mut r: Vec<String> = Vec::new();
        let mut i: usize = 0;
        while i < self.drawn.len()
            invariant
                i <= self.drawn@.len(),
                Self::labels_ok(self.drawn@),
                r@.len() == i,
                forall|k: int| 0 <= k < i ==> (#[trigger] r@[k])@ == sanitized(self.drawn@[k].name@),
            decreases self.drawn@.len() - i,
        {
            r.push(owned(self.drawn[i].label.as_str()));
            i = i + 1;
        }
        r
    }

    /// The separator's text: `width` dashes.
    pub fn separator_line(width: usize) -> (r: String)
        ensures
            r@ == Seq::new(width as nat, |i: int| '-'),
    {
        let mut v: Vec<char> = Vec::new();
        let mut i: usize = 0;
        while i < width
            invariant
                i <= width,
                v@ == Seq::new(i as nat, |k: int| '-'),
            decreases width - i,
        {
            v.push('-');
            assert(v@ =~= Seq::new((i + 1) as nat, |k: int| '-'));
            i = i + 1;
        }
        string_of(v.as_slice())
    }

    /// The overflow row's text, cut to `width` columns.
    pub fn overflow_line(&self, width: usize) -> (r: String)
        ensures
            r@ == truncated(overflow_text((self.running().len() - self.drawn_names().len()) as nat), width as nat),
    {
        let mut v: Vec<char> = Vec::new();
        push_str(&mut v, "... and ");
        push_dec(&mut v, self.waiting.len() as u64);
        push_str(&mut v, " more running");
        let text = string_of(v.as_slice());
        truncate(text.as_str(), width)
    }

    /// Move rows between the screen and the waiting list until the screen
    /// shows the first `cap` running tasks; add or drop the overflow row to
    /// match. The separator goes up with the first row drawn here.
    fn settle(&mut self, cap: usize) -> (ops: Vec<BarOp>)
        requires
            cap >= 1,
            old(self).running().no_duplicates(),
            Self::labels_ok(old(self).drawn@),
            Self::labels_ok(old(self).waiting@),
            old(self).drawn@.len() > 0 ==> old(self).separator,
        ensures
            final(self).running() == old(self).running(),
            final(self).shows_first(cap as nat),
            Self::labels_ok(final(self).drawn@),
            Self::labels_ok(final(self).waiting@),
            final(self).overflow == (final(self).waiting@.len() > 0),
            final(self).separator == (old(self).separator || final(self).drawn@.len() > 0),
            old(self).drawn@.len() > 0 ==> final(self).drawn@.len() > 0,
            (final(self).waiting@.len() > 0 ==> final(self).drawn@.len() > 0),
            final(self).name_width == old(self).name_width,
            apply_ops(old(self).screen(), ops@) == final(self).screen(),
    {
        let ghost run = self.running();
        let ghost s0 = self.screen();
        let mut ops: Vec<BarOp> = Vec::new();
        while self.drawn.len() > cap
            invariant
                cap >= 1,
                self.running() == run,
                Self::labels_ok(self.drawn@),
                Self::labels_ok(self.waiting@),
                self.separator == s0.0,
                self.drawn@.len() > 0 ==> self.separator,
                s0.1.len() > 0 ==> self.drawn@.len() > 0,
                self.overflow == s0.2,
                self.name_width == old(self).name_width,
                apply_ops(s0, ops@) == self.screen(),
            decreases self.drawn@.len(),
        {
            let ghost d0 = self.drawn@;
            let ghost w0 = self.waiting@;
            let e = self.drawn.pop().unwrap();
            let k = self.drawn.len();
            self.waiting.insert(0, e);
            proof {
                lemma_apply_push(s0, ops@, BarOp::RemoveRow(k));
                assert(names_of_rows(self.drawn@) =~= names_of_rows(d0).remove(k as int));
                assert(names_of_rows(self.drawn@) + names_of_rows(self.waiting@) =~= names_of_rows(d0) + names_of_rows(w0));
                assert forall|i: int| 0 <= i < self.waiting@.len() implies (#[trigger] self.waiting@[i]).label@
                    == sanitized(self.waiting@[i].name@) by {
                    if i > 0 {
                        assert(self.waiting@[i] == w0[i - 1]);
                    }
                }
            }
            ops.push(BarOp::RemoveRow(k));
        }
        while self.drawn.len() < cap && self.waiting.len() > 0
            invariant
                cap >= 1,
                self.running() == run,
                Self::labels_ok(self.drawn@),
                Self::labels_ok(self.waiting@),
                self.drawn@.len() <= cap,
                self.separator == (s0.0 || self.drawn@.len() > 0),
                s0.1.len() > 0 ==> self.drawn@.len() > 0,
                self.overflow == s0.2,
                self.name_width == old(self).name_width,
                apply_ops(s0, ops@) == self.screen(),
            decreases self.waiting@.len(),
        {
            let ghost d0 = self.drawn@;
            let ghost w0 = self.waiting@;
            let e = self.waiting.remove(0);
            if !self.separator {
                proof {
                    lemma_apply_push(s0, ops@, BarOp::AddSeparator);
                }
                ops.push(BarOp::AddSeparator);
                self.separator = true;
            }
            let nm = owned(e.name.as_str());
            proof {
                lemma_apply_push(s0, ops@, BarOp::AttachRow(nm));
            }
            ops.push(BarOp::AttachRow(nm));
            self.drawn.push(e);
            proof {
                assert(names_of_rows(self.drawn@) =~= names_of_rows(d0).push(e.name@));
                assert(names_of_rows(self.drawn@) + names_of_rows(self.waiting@) =~= names_of_rows(d0) + names_of_rows(w0));
                assert forall|i: int| 0 <= i < self.waiting@.len() implies (#[trigger] self.waiting@[i]).label@
                    == sanitized(self.waiting@[i].name@) by {
                    assert(self.waiting@[i] == w0[i + 1]);
                }
            }
        }
        if self.waiting.len() > 0 && !self.overflow {
            proof {
                lemma_apply_push(s0, ops@, BarOp::AddOverflow);
            }
            ops.push(BarOp::AddOverflow);
            self.overflow = true;
        } else if self.waiting.len() == 0 && self.overflow {
            proof {
                lemma_apply_push(s0, ops@, BarOp::RemoveOverflow);
            }
            ops.push(BarOp::RemoveOverflow);
            self.overflow = false;
        }
        proof {
            let d = names_of_rows(self.drawn@);
            let wt = names_of_rows(self.waiting@);
            let m = min_nat(cap as nat, run.len());
            assert(self.waiting@.len() > 0 ==> d.len() == cap);
            assert(self.waiting@.len() == 0 ==> d.len() == run.len());
            assert(d.len() == m);
            assert(run.take(m as int) =~= d);
        }
        ops
    }

    /// A task started: it joins the running tasks, once, and gets a row if
    /// the first `cap` running tasks include it.
    pub fn started(&mut self, name: &str, cap: usize) -> (ops: Vec<BarOp>)
        requires
            old(self).wf(),
            cap >= 1,
        ensures
            final(self).wf(),
            final(self).running() == if old(self).running().contains(name@) {
                old(self).running()
            } else {
                old(self).running().push(name@)
            },
            final(self).shows_first(cap as nat),
            final(self).name_width_view() == old(self).name_width_view(),
            apply_ops(old(self).screen(), ops@) == final(self).screen(),
    {
        let ghost run0 = self.running();
        let in_drawn = find(&self.drawn, name);
        let in_waiting = find(&self.waiting, name);
        if in_drawn.is_none() && in_waiting.is_none() {
            let e = RowEntry { name: owned(name), label: sanitize(name) };
            let ghost w0 = self.waiting@;
            self.waiting.push(e);
            proof {
                assert(names_of_rows(self.waiting@) =~= names_of_rows(w0).push(name@));
                assert(self.running() =~= run0.push(name@));
                assert(!run0.contains(name@)) by {
                    if run0.contains(name@) {
                        let k = choose|k: int| 0 <= k < run0.len() && run0[k] == name@;
                        if k < names_of_rows(self.drawn@).len() {
                            assert(names_of_rows(self.drawn@).contains(name@));
                        } else {
                            assert(names_of_rows(w0)[k - names_of_rows(self.drawn@).len()] == name@);
                            assert(names_of_rows(w0).contains(name@));
                        }
                    }
                }
                assert forall|i: int| 0 <= i < self.waiting@.len() implies (#[trigger] self.waiting@[i]).label@
                    == sanitized(self.waiting@[i].name@) by {
                    if i < w0.len() {
                        assert(self.waiting@[i] == w0[i]);
                    }
                }
                let r1 = run0.push(name@);
                assert forall|a: int, b: int| 0 <= a < r1.len() && 0 <= b < r1.len() && a != b implies r1[a]
                    != r1[b] by {
                    if a < run0.len() && b < run0.len() {
                        assert(r1[a] == run0[a] && r1[b] == run0[b]);
                    } else if a < run0.len() {
                        assert(r1[a] == run0[a]);
                    } else if b < run0.len() {
                        assert(r1[b] == run0[b]);
                    }
                }
            }
        } else {
            proof {
                if in_drawn is Some {
                    let i = in_drawn->0;
                    assert(run0[i as int] == name@);
                } else {
                    let j = in_waiting->0;
                    assert(run0[names_of_rows(self.drawn@).len() + j] == name@);
                }
            }
        }
        let ghost s1 = self.screen();
        let ops = self.settle(cap);
        proof {
            assert(s1 == old(self).screen());
        }
        ops
    }

    /// A task finished: it leaves the running tasks, its row (if it had one)
    /// goes, and the first waiting task takes the freed place. When no row
    /// is left, everything is cleared.
    pub fn finished(&mut self, name: &str, cap: usize) -> (ops: Vec<BarOp>)
        requires
            old(self).wf(),
            cap >= 1,
        ensures
            final(self).wf(),
            old(self).running().contains(name@) ==> exists|i: int|
                0 <= i < old(self).running().len() && old(self).running()[i] == name@ && final(self).running()
                    == old(self).running().remove(i),
            !old(self).running().contains(name@) ==> final(self).running() == old(self).running(),
            !final(self).running().contains(name@),
            final(self).shows_first(cap as nat),
            final(self).name_width_view() == old(self).name_width_view(),
            apply_ops(old(self).screen(), ops@) == final(self).screen(),
    {
        let ghost run0 = self.running();
        let ghost s0 = self.screen();
        let ghost nd = names_of_rows(self.drawn@).len();
        let mut ops: Vec<BarOp> = Vec::new();
        match find(&self.drawn, name) {
            Some(i) => {
                let ghost d0 = self.drawn@;
                self.drawn.remove(i);
                proof {
                    lemma_apply_push(s0, ops@, BarOp::RemoveRow(i));
                    assert(names_of_rows(self.drawn@) =~= names_of_rows(d0).remove(i as int));
                    assert(self.running() =~= run0.remove(i as int));
                    assert(run0[i as int] == name@);
                    assert forall|k: int| 0 <= k < self.drawn@.len() implies (#[trigger] self.drawn@[k]).label@
                        == sanitized(self.drawn@[k].name@) by {
                        if k < i {
                            assert(self.drawn@[k] == d0[k]);
                        } else {
                            assert(self.drawn@[k] == d0[k + 1]);
                        }
                    }
                    assert(run0.remove(i as int).no_duplicates()) by {
                        assert forall|a: int, b: int|
                            0 <= a < run0.remove(i as int).len() && 0 <= b < run0.remove(i as int).len() && a != b implies run0.remove(
                            i as int,
                        )[a] != run0.remove(i as int)[b] by {
                            let aa = if a < i { a } else { a + 1 };
                            let bb = if b < i { b } else { b + 1 };
                            assert(run0.remove(i as int)[a] == run0[aa]);
                            assert(run0.remove(i as int)[b] == run0[bb]);
                        }
                    }
                }
                ops.push(BarOp::RemoveRow(i));
            },
            None => {
                match find(&self.waiting, name) {
                    Some(j) => {
                        let ghost w0 = self.waiting@;
                        self.waiting.remove(j);
                        proof {
                            assert(names_of_rows(self.waiting@) =~= names_of_rows(w0).remove(j as int));
                            assert(self.running() =~= run0.remove(nd + j));
                            assert(run0[nd + j] == name@);
                            assert forall|k: int| 0 <= k < self.waiting@.len() implies (#[trigger] self.waiting@[k]).label@
                                == sanitized(self.waiting@[k].name@) by {
                                if k < j {
                                    assert(self.waiting@[k] == w0[k]);
                                } else {
                                    assert(self.waiting@[k] == w0[k + 1]);
                                }
                            }
                            let ii = nd + j;
                            assert(run0.remove(ii).no_duplicates()) by {
                                assert forall|a: int, b: int|
                                    0 <= a < run0.remove(ii).len() && 0 <= b < run0.remove(ii).len() && a != b implies run0.remove(
                                    ii,
                                )[a] != run0.remove(ii)[b] by {
                                    let aa = if a < ii { a } else { a + 1 };
                                    let bb = if b < ii { b } else { b + 1 };
                                    assert(run0.remove(ii)[a] == run0[aa]);
                                    assert(run0.remove(ii)[b] == run0[bb]);
                                }
                            }
                        }
                    },
                    None => {
                        proof {
                            assert(!run0.contains(name@)) by {
                                if run0.contains(name@) {
                                    let k = choose|k: int| 0 <= k < run0.len() && run0[k] == name@;
                                    if k < nd {
                                        assert(names_of_rows(self.drawn@).contains(name@));
                                    } else {
                                        assert(names_of_rows(self.waiting@)[k - nd] == name@);
                                        assert(names_of_rows(self.waiting@).contains(name@));
                                    }
                                }
                            }
                        }
                    },
                }
            },
        }
        proof {
            assert(!self.running().contains(name@)) by {
                if self.running().contains(name@) {
                    let k = choose|k: int| 0 <= k < self.running().len() && self.running()[k] == name@;
                    if run0.contains(name@) {
                        let i = choose|i: int| 0 <= i < run0.len() && run0[i] == name@ && self.running() == run0.remove(i);
                        let kk = if k < i { k } else { k + 1 };
                        assert(run0[kk] == name@);
                        assert(run0[i] == name@);
                    } else {
                        assert(self.running() == run0);
                        assert(run0.contains(name@));
                    }
                }
            }
        }
        let mut more = self.settle(cap);
        proof {
            lemma_apply_concat(s0, ops@, more@);
        }
        ops.append(&mut more);
        if self.drawn.len() == 0 {
            proof {
                lemma_apply_push(s0, ops@, BarOp::ClearAll);
            }
            ops.push(BarOp::ClearAll);
            self.separator = false;
            self.overflow = false;
            proof {
                assert(names_of_rows(self.drawn@) =~= Seq::<Seq<char>>::empty());
            }
        }
        ops
    }

    /// Recompute which rows fit `cap`: a shrink moves rows from the end of
    /// the screen to the front of the waiting list, a regrow brings them
    /// back in the same order.
    pub fn refresh(&mut self, cap: usize) -> (ops: Vec<BarOp>)
        requires
            old(self).wf(),
            cap >= 1,
        ensures
            final(self).wf(),
            final(self).running() == old(self).running(),
            final(self).shows_first(cap as nat),
            final(self).name_width_view() == old(self).name_width_view(),
            apply_ops(old(self).screen(), ops@) == final(self).screen(),
    {
        self.settle(cap)
    }
}

/// A task runs once in the region however often it is started; the
/// separator stands exactly while a row is drawn, and the overflow row
/// exactly while a running task has no row.
pub proof fn rows_are_consistent(r: Region)
    requires
        r.wf(),
    ensures
        r.running().no_duplicates(),
        r.screen().1 == r.drawn_names(),
        r.screen().0 == (r.drawn_names().len() > 0),
        r.screen().2 == (r.running().len() > r.drawn_names().len()),
        r.drawn_names() == r.running().take(r.drawn_names().len() as int),
{
    assert(r.running().take(r.drawn_names().len() as int) =~= r.drawn_names());
}

} // verus!
