//! The idle spinner's two rules: when a spinner may exist at all, and what
//! one frame says, cut to fit one terminal row.

use vstd::prelude::*;
use std::time::Duration;
use crate::duration::{secs_of, whole_secs};
use crate::fmt::{dec, dec2, push_dec, push_dec2};
use crate::text::{chars_of, push_all, push_str, str_eq, string_of, string_views, sub_chars};

verus! {

/// Whether a spinner runs: only on a terminal stderr, outside the TUI,
/// without `--no-progress`, with none of `OTTO_NO_PROGRESS`, `CI` or
/// `NO_COLOR` set to a non-empty value, and with `TERM` set, non-empty and
/// not `dumb`.
pub open spec fn gate_rule(
    stderr_is_terminal: bool,
    tui_mode: bool,
    no_progress_flag: bool,
    otto_no_progress: Option<Seq<char>>,
    ci: Option<Seq<char>>,
    no_color: Option<Seq<char>>,
    term: Option<Seq<char>>,
) -> bool {
    &&& stderr_is_terminal && !tui_mode && !no_progress_flag
    &&& !(otto_no_progress matches Some(v) && v.len() > 0)
    &&& !(ci matches Some(v) && v.len() > 0)
    &&& !(no_color matches Some(v) && v.len() > 0)
    &&& term matches Some(t) && t.len() > 0 && t != "dumb"@
}

pub open spec fn opt_str_view(o: Option<String>) -> Option<Seq<char>> {
    match o {
        Some(s) => Some(s@),
        None => None,
    }
}

fn set_and_nonempty(v: &Option<String>) -> (r: bool)
    ensures
        r == (opt_str_view(*v) matches Some(s) && s.len() > 0),
{
    match v {
        Some(s) => chars_of(s.as_str()).len() > 0,
        None => false,
    }
}

/// Whether a spinner may run, decided on the four environment values.
pub fn gate_from(
    stderr_is_terminal: bool,
    tui_mode: bool,
    no_progress_flag: bool,
    otto_no_progress: Option<String>,
    ci: Option<String>,
    no_color: Option<String>,
    term: Option<String>,
) -> (r: bool)
    ensures
        r == gate_rule(
            stderr_is_terminal,
            tui_mode,
            no_progress_flag,
            opt_str_view(otto_no_progress),
            opt_str_view(ci),
            opt_str_view(no_color),
            opt_str_view(term),
        ),
{
    if !stderr_is_terminal || tui_mode || no_progress_flag {
        return false;
    }
    if set_and_nonempty(&otto_no_progress) || set_and_nonempty(&ci) || set_and_nonempty(&no_color) {
        return false;
    }
    match term {
        None => false,
        Some(t) => {
            let n = chars_of(t.as_str()).len();
            n > 0 && !str_eq(t.as_str(), "dumb")
        },
    }
}

/// Whether `v` is set to a non-empty value.
pub open spec fn nonempty_value(v: Option<String>) -> bool {
    opt_str_view(v) matches Some(s) && s.len() > 0
}

/// The readings `should_enable` takes, in order, each while no earlier
/// reading has ruled the spinner out: `OTTO_NO_PROGRESS`, then `CI`, then
/// `NO_COLOR`, then `TERM`. A value that is not read is left free.
pub open spec fn gate_readings<F: Fn(&str) -> Option<String>>(
    env: F,
    stderr_is_terminal: bool,
    tui_mode: bool,
    no_progress_flag: bool,
    a: Option<String>,
    b: Option<String>,
    c: Option<String>,
    d: Option<String>,
) -> bool {
    let open = stderr_is_terminal && !tui_mode && !no_progress_flag;
    &&& (open ==> call_ensures(env, ("OTTO_NO_PROGRESS",), a))
    &&& (open && !nonempty_value(a) ==> call_ensures(env, ("CI",), b))
    &&& (open && !nonempty_value(a) && !nonempty_value(b) ==> call_ensures(env, ("NO_COLOR",), c))
    &&& (open && !nonempty_value(a) && !nonempty_value(b) && !nonempty_value(c) ==> call_ensures(
        env,
        ("TERM",),
        d,
    ))
}

/// Whether a spinner should run, reading the environment through `env`
/// only as far as needed: nothing is read once stderr is not a terminal,
/// in the TUI or under `--no-progress`, and each later variable is read
/// while the earlier ones have not ruled the spinner out.
pub fn should_enable<F: Fn(&str) -> Option<String>>(
    stderr_is_terminal: bool,
    tui_mode: bool,
    no_progress_flag: bool,
    env: F,
) -> (r: bool)
    requires
        forall|k: &str| call_requires(env, (k,)),
    ensures
        !stderr_is_terminal || tui_mode || no_progress_flag ==> !r,
        exists|a: Option<String>, b: Option<String>, c: Option<String>, d: Option<String>|
            #[trigger] gate_readings(env, stderr_is_terminal, tui_mode, no_progress_flag, a, b, c, d) && r
                == gate_rule(
                stderr_is_terminal,
                tui_mode,
                no_progress_flag,
                opt_str_view(a),
                opt_str_view(b),
                opt_str_view(c),
                opt_str_view(d),
            ),
{
    let open = stderr_is_terminal && !tui_mode && !no_progress_flag;
    if !open {
        assert(gate_readings(env, stderr_is_terminal, tui_mode, no_progress_flag, None, None, None, None));
        return false;
    }
    let a = env("OTTO_NO_PROGRESS");
    if set_and_nonempty(&a) {
        assert(gate_readings(env, stderr_is_terminal, tui_mode, no_progress_flag, a, None, None, None));
        return false;
    }
    let b = env("CI");
    if set_and_nonempty(&b) {
        assert(gate_readings(env, stderr_is_terminal, tui_mode, no_progress_flag, a, b, None, None));
        return false;
    }
    let c = env("NO_COLOR");
    if set_and_nonempty(&c) {
        assert(gate_readings(env, stderr_is_terminal, tui_mode, no_progress_flag, a, b, c, None));
        return false;
    }
    let d = env("TERM");
    let ghost (ga, gb, gc, gd) = (a, b, c, d);
    let r = gate_from(stderr_is_terminal, tui_mode, no_progress_flag, a, b, c, d);
    assert(gate_readings(env, stderr_is_terminal, tui_mode, no_progress_flag, ga, gb, gc, gd));
    r
}

/// Names joined with `, `.
pub open spec fn joined_names(names: Seq<Seq<char>>) -> Seq<char>
    decreases names.len(),
{
    if names.len() == 0 {
        Seq::empty()
    } else if names.len() == 1 {
        names[0]
    } else {
        joined_names(names.drop_last()) + seq![',', ' '] + names.last()
    }
}

/// The elapsed clock: minutes, then two-digit seconds.
pub open spec fn clock_text(secs: nat) -> Seq<char> {
    dec(secs / 60) + seq![':'] + dec2(secs % 60)
}

/// A frame before it is cut: the spinner, then the running task (or how
/// many are running and their names), then the clock.
pub open spec fn full_frame(spinner: Seq<char>, running: Seq<Seq<char>>, secs: nat) -> Seq<char> {
    if running.len() > 1 {
        spinner + seq![' '] + dec(running.len()) + " running: "@ + joined_names(running) + " · "@
            + clock_text(secs)
    } else {
        spinner + seq![' '] + joined_names(running) + " · "@ + clock_text(secs)
    }
}

/// A frame cut to `width - 1` characters: unchanged if it fits, nothing if
/// there is no room, else its head and an ellipsis.
pub open spec fn fitted(line: Seq<char>, width: nat) -> Seq<char> {
    let budget: int = if width >= 1 {
        width - 1
    } else {
        0
    };
    if budget == 0 {
        Seq::empty()
    } else if line.len() <= budget {
        line
    } else {
        line.take(budget - 1) + seq!['…']
    }
}

/// One spinner frame, at most `width - 1` characters so it never wraps.
pub fn frame_line(spinner: &str, running: &Vec<String>, elapsed: Duration, width: usize) -> (r: String)
    ensures
        r@ == fitted(full_frame(spinner@, string_views(running@), whole_secs(elapsed)), width as nat),
        r@.len() <= if width >= 1 {
            width - 1
        } else {
            0
        },
{
    let secs = secs_of(elapsed);
    let mut clock: Vec<char> = Vec::new();
    push_dec(&mut clock, secs / 60);
    clock.push(':');
    push_dec2(&mut clock, secs % 60);
    assert(clock@ =~= clock_text(secs as nat));
    let ghost rv = string_views(running@);
    let mut names: Vec<char> = Vec::new();
    let mut i: usize = 0;
    while i < running.len()
        invariant
            i <= running.len(),
            rv == string_views(running@),
            names@ == joined_names(rv.take(i as int)),
        decreases running.len() - i,
    {
        let ghost before = names@;
        assert(rv.take(i + 1).drop_last() =~= rv.take(i as int));
        assert(rv.take(i + 1).last() == running@[i as int]@);
        if i > 0 {
            names.push(',');
            names.push(' ');
        }
        push_str(&mut names, running[i].as_str());
        proof {
            if i == 0 {
                assert(names@ =~= rv.take(1)[0]);
            } else {
                assert(names@ =~= before + seq![',', ' '] + running@[i as int]@);
            }
        }
        i = i + 1;
    }
    assert(rv.take(i as int) =~= rv);
    let mut line: Vec<char> = Vec::new();
    push_str(&mut line, spinner);
    line.push(' ');
    if running.len() > 1 {
        push_dec(&mut line, running.len() as u64);
        push_str(&mut line, " running: ");
    }
    push_all(&mut line, names.as_slice());
    push_str(&mut line, " · ");
    push_all(&mut line, clock.as_slice());
    assert(line@ =~= full_frame(spinner@, rv, secs as nat));
    let budget = if width >= 1 {
        width - 1
    } else {
        0
    };
    if budget == 0 {
        return string_of(&[]);
    }
    if line.len() <= budget {
        return string_of(line.as_slice());
    }
    let mut out = sub_chars(&line, 0, budget - 1);
    out.push('…');
    assert(out@ =~= line@.take(budget - 1) + seq!['…']);
    string_of(out.as_slice())
}

/// How long, in milliseconds, a run must go without printing before a
/// frame appears.
pub const IDLE_BEFORE_SPIN_MS: u64 = 3000;

/// The braille frame with index `i`, one cell wide.
pub open spec fn glyph_of(i: nat) -> Seq<char> {
    if i == 0 {
        "⠋"@
    } else if i == 1 {
        "⠙"@
    } else if i == 2 {
        "⠹"@
    } else if i == 3 {
        "⠸"@
    } else if i == 4 {
        "⠼"@
    } else if i == 5 {
        "⠴"@
    } else if i == 6 {
        "⠦"@
    } else if i == 7 {
        "⠧"@
    } else if i == 8 {
        "⠇"@
    } else {
        "⠏"@
    }
}

/// The frame glyph for frame counter `i`, cycling through ten.
pub fn glyph(i: usize) -> (r: &'static str)
    ensures
        r@ == glyph_of((i % 10) as nat),
{
    let k = i % 10;
    if k == 0 {
        "⠋"
    } else if k == 1 {
        "⠙"
    } else if k == 2 {
        "⠹"
    } else if k == 3 {
        "⠸"
    } else if k == 4 {
        "⠼"
    } else if k == 5 {
        "⠴"
    } else if k == 6 {
        "⠦"
    } else if k == 7 {
        "⠧"
    } else if k == 8 {
        "⠇"
    } else {
        "⠏"
    }
}

/// What erases a frame: back to column zero, clear to the end of the line.
pub open spec fn erase_text() -> Seq<char> {
    seq!['\r', '\x1b', '[', 'K']
}

/// `s` without its first `x`, unchanged when it has none.
pub open spec fn without_first(s: Seq<Seq<char>>, x: Seq<char>) -> Seq<Seq<char>>
    decreases s.len(),
{
    if s.len() == 0 {
        s
    } else if s[0] == x {
        s.drop_first()
    } else {
        seq![s[0]] + without_first(s.drop_first(), x)
    }
}

/// The spinner's state: the tasks in flight in the order they started, the
/// frame counter, and whether a frame is on the screen.
pub struct Spinner {
    running: Vec<String>,
    frame: usize,
    drawn: bool,
}

impl Spinner {
    pub closed spec fn running_view(&self) -> Seq<Seq<char>> {
        string_views(self.running@)
    }

    pub closed spec fn frame_view(&self) -> usize {
        self.frame
    }

    pub closed spec fn drawn_view(&self) -> bool {
        self.drawn
    }

    /// Nothing in flight, nothing drawn.
    pub fn new() -> (r: Spinner)
        ensures
            r.running_view() == Seq::<Seq<char>>::empty(),
            r.frame_view() == 0,
            !r.drawn_view(),
    {
        let r = Spinner { running: Vec::new(), frame: 0, drawn: false };
        assert(string_views(r.running@) =~= Seq::<Seq<char>>::empty());
        r
    }

    /// A task began.
    pub fn started(&mut self, name: &str)
        ensures
            final(self).running_view() == old(self).running_view().push(name@),
            final(self).frame_view() == old(self).frame_view(),
            final(self).drawn_view() == old(self).drawn_view(),
    {
        let ghost before = string_views(self.running@);
        self.running.push(string_of(chars_of(name).as_slice()));
        assert(string_views(self.running@) =~= before.push(name@));
    }

    /// A task ended, however it ended: its first entry goes.
    pub fn finished(&mut self, name: &str)
        ensures
            final(self).running_view() == without_first(old(self).running_view(), name@),
            final(self).frame_view() == old(self).frame_view(),
            final(self).drawn_view() == old(self).drawn_view(),
    {
        let ghost rv = string_views(self.running@);
        let mut i: usize = 0;
        assert(rv.skip(0) =~= rv);
        assert(rv.take(0) + without_first(rv, name@) =~= without_first(rv, name@));
        while i < self.running.len()
            invariant
                i <= self.running@.len(),
                rv == string_views(self.running@),
                rv == old(self).running_view(),
                self.frame == old(self).frame,
                self.drawn == old(self).drawn,
                forall|k: int| 0 <= k < i ==> rv[k] != name@,
                without_first(rv, name@) == rv.take(i as int) + without_first(rv.skip(i as int), name@),
            decreases self.running@.len() - i,
        {
            if str_eq(self.running[i].as_str(), name) {
                assert(rv.skip(i as int)[0] == name@);
                assert(without_first(rv.skip(i as int), name@) == rv.skip(i as int).drop_first());
                self.running.remove(i);
                assert(string_views(self.running@) =~= rv.take(i as int) + rv.skip(i as int).drop_first());
                return;
            }
            assert(rv.skip(i as int).drop_first() =~= rv.skip(i + 1));
            assert(rv.skip(i as int)[0] != name@);
            assert(without_first(rv.skip(i as int), name@) == seq![rv[i as int]] + without_first(
                rv.skip(i as int).drop_first(),
                name@,
            ));
            assert(rv.take(i + 1) =~= rv.take(i as int) + seq![rv[i as int]]);
            assert(rv.take(i as int) + without_first(rv.skip(i as int), name@) =~= rv.take(i + 1) + without_first(
                rv.skip(i + 1),
                name@,
            ));
            i = i + 1;
        }
        assert(rv.skip(i as int) =~= Seq::<Seq<char>>::empty());
        assert(rv.take(i as int) =~= rv);
    }

    /// Take any frame off the screen: true when one was there and the
    /// erase must be written.
    pub fn hide_frame(&mut self) -> (erase: bool)
        ensures
            erase == old(self).drawn_view(),
            !final(self).drawn_view(),
            final(self).running_view() == old(self).running_view(),
            final(self).frame_view() == old(self).frame_view(),
    {
        let was = self.drawn;
        self.drawn = false;
        was
    }

    /// What to write to stderr on a tick, if anything: nothing running or
    /// output in the last [`IDLE_BEFORE_SPIN_MS`] erases any frame; a
    /// quiet run with tasks in flight draws the next frame, without a
    /// newline, and advances the counter.
    pub fn draw_if_idle(&mut self, idle_ms: u64, elapsed: Duration, width: usize) -> (out: Option<String>)
        ensures
            final(self).running_view() == old(self).running_view(),
            old(self).running_view().len() == 0 || idle_ms < IDLE_BEFORE_SPIN_MS ==> {
                &&& !final(self).drawn_view()
                &&& final(self).frame_view() == old(self).frame_view()
                &&& (old(self).drawn_view() ==> (out matches Some(t) && t@ == erase_text()))
                &&& (!old(self).drawn_view() ==> out is None)
            },
            !(old(self).running_view().len() == 0 || idle_ms < IDLE_BEFORE_SPIN_MS) ==> {
                &&& final(self).drawn_view()
                &&& final(self).frame_view() == if old(self).frame_view() == usize::MAX {
                    0
                } else {
                    (old(self).frame_view() + 1) as usize
                }
                &&& out matches Some(t) && t@ == seq!['\r'] + fitted(
                    full_frame(
                        glyph_of((old(self).frame_view() % 10) as nat),
                        old(self).running_view(),
                        whole_secs(elapsed),
                    ),
                    width as nat,
                ) + seq!['\x1b', '[', 'K']
            },
    {
        if self.running.len() == 0 || idle_ms < IDLE_BEFORE_SPIN_MS {
            if self.hide_frame() {
                let mut v: Vec<char> = Vec::new();
                v.push('\r');
                v.push('\x1b');
                v.push('[');
                v.push('K');
                assert(v@ =~= erase_text());
                return Some(string_of(v.as_slice()));
            }
            return None;
        }
        let line = frame_line(glyph(self.frame), &self.running, elapsed, width);
        self.frame = if self.frame == usize::MAX {
            0
        } else {
            self.frame + 1
        };
        self.drawn = true;
        let mut v: Vec<char> = Vec::new();
        v.push('\r');
        push_str(&mut v, line.as_str());
        v.push('\x1b');
        v.push('[');
        v.push('K');
        Some(string_of(v.as_slice()))
    }
}

} // verus!
