//! The full-screen view's logic: status marks, the pane grid, which pane
//! has focus, each pane's bounded output buffer and scroll position, and
//! what a key does. Drawing and the terminal belong to the caller.

use vstd::prelude::*;
use crate::fmt::{dec, push_dec};
use crate::output::TaskOutput;
use crate::text::{chars_of, lines, push_str, str_eq, string_of, views, lines_s};

verus! {

/// A task's status as its pane shows it.
#[derive(Debug, Clone, Copy, PartialEq, Eq, Structural)]
pub enum PaneStatus {
    Pending,
    Running,
    Completed,
    Failed,
    Skipped,
}

pub open spec fn symbol_of(s: PaneStatus) -> Seq<char> {
    match s {
        PaneStatus::Pending => "○"@,
        PaneStatus::Running => "●"@,
        PaneStatus::Completed => "✓"@,
        PaneStatus::Failed => "✗"@,
        PaneStatus::Skipped => "⊘"@,
    }
}

impl PaneStatus {
    /// The mark shown beside a task.
    pub fn symbol(&self) -> (r: &'static str)
        ensures
            r@ == symbol_of(*self),
    {
        match self {
            PaneStatus::Pending => "○",
            PaneStatus::Running => "●",
            PaneStatus::Completed => "✓",
            PaneStatus::Failed => "✗",
            PaneStatus::Skipped => "⊘",
        }
    }
}


/// Rows and columns of the pane grid for `n` panes; at most sixteen are
/// visible.
pub open spec fn grid_of(n: nat) -> (u16, u16) {
    if n <= 1 {
        (1, 1)
    } else if n == 2 {
        (1, 2)
    } else if n <= 4 {
        (2, 2)
    } else if n <= 6 {
        (2, 3)
    } else if n <= 9 {
        (3, 3)
    } else if n <= 12 {
        (3, 4)
    } else {
        (4, 4)
    }
}

/// The grid for `n` panes, as rows and columns.
pub fn grid_shape(n: usize) -> (r: (u16, u16))
    ensures
        r == grid_of(n as nat),
{
    if n <= 1 {
        (1, 1)
    } else if n == 2 {
        (1, 2)
    } else if n <= 4 {
        (2, 2)
    } else if n <= 6 {
        (2, 3)
    } else if n <= 9 {
        (3, 3)
    } else if n <= 12 {
        (3, 4)
    } else {
        (4, 4)
    }
}

/// The panes, in the order added, and which one has focus.
pub struct PaneLayout<P> {
    panes: Vec<P>,
    focused_index: usize,
}

impl<P> PaneLayout<P> {
    pub closed spec fn panes_view(&self) -> Seq<P> {
        self.panes@
    }

    pub closed spec fn focus_view(&self) -> nat {
        self.focused_index as nat
    }

    /// Focus is on a pane when there is one, on the first place otherwise.
    pub open spec fn wf(&self) -> bool {
        if self.panes_view().len() == 0 {
            self.focus_view() == 0
        } else {
            self.focus_view() < self.panes_view().len()
        }
    }

    pub fn new() -> (r: PaneLayout<P>)
        ensures
            r.wf(),
            r.panes_view() == Seq::<P>::empty(),
    {
        PaneLayout { panes: Vec::new(), focused_index: 0 }
    }

    /// Add a pane after the others; focus stays where it was.
    pub fn add_pane(&mut self, pane: P)
        requires
            old(self).wf(),
        ensures
            final(self).wf(),
            final(self).panes_view() == old(self).panes_view().push(pane),
            final(self).focus_view() == old(self).focus_view(),
    {
        self.panes.push(pane);
    }

    pub fn len(&self) -> (r: usize)
        ensures
            r == self.panes_view().len(),
    {
        self.panes.len()
    }

    /// The focused pane's index.
    pub fn focused_index(&self) -> (r: usize)
        ensures
            r == self.focus_view(),
    {
        self.focused_index
    }

    /// Focus the next pane, wrapping from the last to the first.
    pub fn focus_next(&mut self)
        requires
            old(self).wf(),
        ensures
            final(self).wf(),
            final(self).panes_view() == old(self).panes_view(),
            old(self).panes_view().len() > 0 ==> final(self).focus_view() == (old(self).focus_view() + 1)
                % old(self).panes_view().len(),
            old(self).panes_view().len() == 0 ==> final(self).focus_view() == 0,
    {
        if self.panes.len() > 0 {
            self.focused_index = (self.focused_index + 1) % self.panes.len();
        }
    }

    /// Focus the previous pane, wrapping from the first to the last.
    pub fn focus_prev(&mut self)
        requires
            old(self).wf(),
        ensures
            final(self).wf(),
            final(self).panes_view() == old(self).panes_view(),
            old(self).panes_view().len() > 0 ==> final(self).focus_view() == if old(self).focus_view() == 0 {
                (old(self).panes_view().len() - 1) as nat
            } else {
                (old(self).focus_view() - 1) as nat
            },
            old(self).panes_view().len() == 0 ==> final(self).focus_view() == 0,
    {
        if self.panes.len() > 0 {
            self.focused_index = if self.focused_index == 0 {
                self.panes.len() - 1
            } else {
                self.focused_index - 1
            };
        }
    }
}

/// Moving focus forward and then back lands on the pane it started on.
pub proof fn focus_next_then_prev_returns(len: nat, i: nat)
    requires
        i < len,
    ensures
        ({
            let n = (i + 1) % len;
            (if n == 0 {
                (len - 1) as nat
            } else {
                (n - 1) as nat
            }) == i
        }),
{
    if i + 1 < len {
        assert((i + 1) % len == i + 1) by (nonlinear_arith)
            requires
                i + 1 < len,
        ;
    } else {
        assert((i + 1) % len == 0) by (nonlinear_arith)
            requires
                i + 1 == len,
        ;
    }
}

/// The last `max` items of `s`, all of them when there are no more.
pub open spec fn keep_last<T>(s: Seq<T>, max: nat) -> Seq<T> {
    if s.len() > max {
        s.skip(s.len() - max)
    } else {
        s
    }
}

/// How many lines a pane keeps.
pub const PANE_BUFFER_LINES: usize = 1000;

/// One task's pane: its name and status, its last lines of output, and how
/// far it is scrolled.
pub struct TaskPane {
    task_name: String,
    status: PaneStatus,
    output_buffer: Vec<String>,
    scroll_offset: u16,
    max_buffer_lines: usize,
}

impl TaskPane {
    pub closed spec fn name_view(&self) -> Seq<char> {
        self.task_name@
    }

    pub closed spec fn status_view(&self) -> PaneStatus {
        self.status
    }

    pub closed spec fn buffer_view(&self) -> Seq<Seq<char>> {
        self.output_buffer@.map_values(|s: String| s@)
    }

    pub closed spec fn scroll_view(&self) -> u16 {
        self.scroll_offset
    }

    pub closed spec fn max_view(&self) -> nat {
        self.max_buffer_lines as nat
    }

    /// The buffer never holds more than its bound.
    pub open spec fn wf(&self) -> bool {
        &&& self.buffer_view().len() <= self.max_view()
        &&& self.max_view() == PANE_BUFFER_LINES
    }

    /// A pending pane for `task_name`, empty, at the top.
    pub fn new(task_name: &str) -> (r: TaskPane)
        ensures
            r.wf(),
            r.name_view() == task_name@,
            r.status_view() == PaneStatus::Pending,
            r.buffer_view() == Seq::<Seq<char>>::empty(),
            r.scroll_view() == 0,
    {
        let r = TaskPane {
            task_name: string_of(chars_of(task_name).as_slice()),
            status: PaneStatus::Pending,
            output_buffer: Vec::new(),
            scroll_offset: 0,
            max_buffer_lines: PANE_BUFFER_LINES,
        };
        assert(r.output_buffer@.map_values(|s: String| s@) =~= Seq::<Seq<char>>::empty());
        r
    }

    pub fn set_status(&mut self, status: PaneStatus)
        ensures
            final(self).status_view() == status,
            final(self).name_view() == old(self).name_view(),
            final(self).buffer_view() == old(self).buffer_view(),
            final(self).scroll_view() == old(self).scroll_view(),
            final(self).max_view() == old(self).max_view(),
    {
        self.status = status;
    }

    pub fn status(&self) -> (r: PaneStatus)
        ensures
            r == self.status_view(),
    {
        self.status
    }

    pub fn id(&self) -> (r: &str)
        ensures
            r@ == self.name_view(),
    {
        self.task_name.as_str()
    }

    /// Take in one piece of output: for this pane's task, each of its lines
    /// joins the buffer, which keeps only its last lines; other tasks'
    /// output is ignored.
    pub fn receive(&mut self, output: &TaskOutput)
        requires
            old(self).wf(),
        ensures
            final(self).wf(),
            final(self).buffer_view() == if output.task_name@ == old(self).name_view() {
                keep_last(old(self).buffer_view() + lines_s(output.content@), PANE_BUFFER_LINES as nat)
            } else {
                old(self).buffer_view()
            },
            final(self).name_view() == old(self).name_view(),
            final(self).status_view() == old(self).status_view(),
            final(self).scroll_view() == old(self).scroll_view(),
    {
        if !str_eq(output.task_name.as_str(), self.task_name.as_str()) {
            return;
        }
        let new_lines = lines(&chars_of(output.content.as_str()));
        let ghost old_buf = self.buffer_view();
        let ghost nl = views(new_lines@);
        let mut k: usize = 0;
        while k < new_lines.len()
            invariant
                k <= new_lines@.len(),
                nl == views(new_lines@),
                nl == lines_s(output.content@),
                self.max_buffer_lines == PANE_BUFFER_LINES,
                self.output_buffer@.len() <= PANE_BUFFER_LINES,
                self.buffer_view() == keep_last(old_buf + nl.take(k as int), PANE_BUFFER_LINES as nat),
                self.task_name@ == old(self).task_name@,
                self.status == old(self).status,
                self.scroll_offset == old(self).scroll_offset,
            decreases new_lines@.len() - k,
        {
            let ghost before = self.buffer_view();
            let line = string_of(new_lines[k].as_slice());
            self.output_buffer.push(line);
            if self.output_buffer.len() > self.max_buffer_lines {
                self.output_buffer.remove(0);
            }
            proof {
                let x = old_buf + nl.take(k as int);
                let y = old_buf + nl.take(k + 1);
                assert(y =~= x.push(nl[k as int]));
                assert(nl[k as int] == new_lines@[k as int]@);
                let m = PANE_BUFFER_LINES as nat;
                if x.len() > m {
                    assert(keep_last(y, m) =~= keep_last(x, m).push(nl[k as int]).skip(1));
                } else if y.len() > m {
                    assert(keep_last(y, m) =~= x.push(nl[k as int]).skip(1));
                }
                assert(self.buffer_view() =~= keep_last(y, m));
            }
            k = k + 1;
        }
        assert(nl.take(k as int) =~= nl);
    }

    /// Scroll up a line, stopping at the top.
    pub fn scroll_up(&mut self)
        ensures
            final(self).scroll_view() == if old(self).scroll_view() > 0 {
                (old(self).scroll_view() - 1) as u16
            } else {
                0
            },
            final(self).buffer_view() == old(self).buffer_view(),
            final(self).name_view() == old(self).name_view(),
            final(self).status_view() == old(self).status_view(),
            final(self).max_view() == old(self).max_view(),
    {
        self.scroll_offset = if self.scroll_offset > 0 {
            self.scroll_offset - 1
        } else {
            0
        };
    }

    /// Scroll down a line while lines remain below a window of
    /// `visible_height`. The line count is taken as a `u16`, cut to its low
    /// bits as the display does.
    pub fn scroll_down(&mut self, visible_height: u16)
        requires
            old(self).wf(),
        ensures
            final(self).wf(),
            final(self).scroll_view() == ({
                let total = (old(self).buffer_view().len() as u16) as int;
                if total > visible_height && (old(self).scroll_view() as int) < total - visible_height {
                    (old(self).scroll_view() + 1) as u16
                } else {
                    old(self).scroll_view()
                }
            }),
            final(self).buffer_view() == old(self).buffer_view(),
            final(self).name_view() == old(self).name_view(),
            final(self).status_view() == old(self).status_view(),
    {
        let total = self.output_buffer.len() as u16;
        if total > visible_height {
            let max_scroll = total - visible_height;
            if self.scroll_offset < max_scroll {
                self.scroll_offset = self.scroll_offset + 1;
            }
        }
    }

    /// Back to the top.
    pub fn reset_scroll(&mut self)
        ensures
            final(self).scroll_view() == 0,
            final(self).buffer_view() == old(self).buffer_view(),
            final(self).name_view() == old(self).name_view(),
            final(self).status_view() == old(self).status_view(),
            final(self).max_view() == old(self).max_view(),
    {
        self.scroll_offset = 0;
    }

    /// The buffer's lines a window `visible_height` lines tall shows, as a
    /// start and an end index: from the scroll position, kept so the window
    /// stays full where it can.
    pub fn visible_range(&self, visible_height: usize) -> (r: (usize, usize))
        requires
            self.wf(),
        ensures
            ({
                let total = self.buffer_view().len() as int;
                let bottom = if total > visible_height { total - visible_height } else { 0 };
                let start = if (self.scroll_view() as int) < bottom { self.scroll_view() as int } else { bottom };
                let end = if start + visible_height < total { start + visible_height } else { total };
                r.0 == start && r.1 == end
            }),
            r.0 <= r.1 <= self.buffer_view().len(),
    {
        let total = self.output_buffer.len();
        let bottom = if total > visible_height {
            total - visible_height
        } else {
            0
        };
        let offset = self.scroll_offset as usize;
        let start = if offset < bottom {
            offset
        } else {
            bottom
        };
        let end = if visible_height < total - start {
            start + visible_height
        } else {
            total
        };
        (start, end)
    }

    /// The lines in `[start, end)`.
    pub fn lines_between(&self, start: usize, end: usize) -> (r: Vec<String>)
        requires
            start <= end <= self.buffer_view().len(),
        ensures
            r@.map_values(|s: String| s@) == self.buffer_view().subrange(start as int, end as int),
    {
        let mut r: Vec<String> = Vec::new();
        let mut i: usize = start;
        while i < end
            invariant
                start <= i <= end,
                end <= self.output_buffer@.len(),
                r@.map_values(|s: String| s@) == self.buffer_view().subrange(start as int, i as int),
            decreases end - i,
        {
            r.push(string_of(chars_of(self.output_buffer[i].as_str()).as_slice()));
            assert(self.buffer_view().subrange(start as int, i + 1) =~= self.buffer_view().subrange(
                start as int,
                i as int,
            ).push(self.output_buffer@[i as int]@));
            assert(r@.map_values(|s: String| s@) =~= self.buffer_view().subrange(start as int, i as int).push(
                self.output_buffer@[i as int]@,
            ));
            i = i + 1;
        }
        r
    }

    /// The pane's border title: ` name mark `.
    pub fn title(&self) -> (r: String)
        ensures
            r@ == seq![' '] + self.name_view() + seq![' '] + symbol_of(self.status_view()) + seq![' '],
    {
        let mut v: Vec<char> = Vec::new();
        v.push(' ');
        push_str(&mut v, self.task_name.as_str());
        v.push(' ');
        push_str(&mut v, self.status.symbol());
        v.push(' ');
        string_of(v.as_slice())
    }
}

/// A key the view reacts to.
#[derive(Debug, Clone, Copy, PartialEq, Eq, Structural)]
pub enum Key {
    Char(char),
    Esc,
    Enter,
    Tab,
    BackTab,
    Left,
    Right,
    Up,
    Down,
    Home,
    PageUp,
    PageDown,
    Other,
}

/// What a key asks of the focused pane or the pages.
#[derive(Debug, Clone, Copy, PartialEq, Eq, Structural)]
pub enum PaneAction {
    Stay,
    FocusNext,
    FocusPrev,
    ScrollUp,
    ScrollDown(u16),
    ResetScroll,
    NextPage,
    PrevPage,
}

/// The lines a pane is scrolled against when a key scrolls it down.
pub const SCROLL_WINDOW: u16 = 20;

/// The view's own state: whether to quit, whether the focused pane fills
/// the screen.
#[derive(Debug, Clone, Copy, PartialEq, Eq, Structural)]
pub struct ViewState {
    pub should_quit: bool,
    pub fullscreen_mode: bool,
}

/// What a key does: `q` or Esc quits; `f` or Enter toggles full screen;
/// Tab or Right and BackTab or Left move focus; Up or `k`, Down or `j`
/// scroll; Home goes to the top; PageDown and PageUp turn pages.
pub open spec fn key_effect(v: ViewState, key: Key) -> (ViewState, PaneAction) {
    match key {
        Key::Char('q') | Key::Esc => (ViewState { should_quit: true, ..v }, PaneAction::Stay),
        Key::Char('f') | Key::Enter => (ViewState { fullscreen_mode: !v.fullscreen_mode, ..v }, PaneAction::Stay),
        Key::Tab | Key::Right => (v, PaneAction::FocusNext),
        Key::BackTab | Key::Left => (v, PaneAction::FocusPrev),
        Key::Up | Key::Char('k') => (v, PaneAction::ScrollUp),
        Key::Down | Key::Char('j') => (v, PaneAction::ScrollDown(SCROLL_WINDOW)),
        Key::Home => (v, PaneAction::ResetScroll),
        Key::PageDown => (v, PaneAction::NextPage),
        Key::PageUp => (v, PaneAction::PrevPage),
        _ => (v, PaneAction::Stay),
    }
}

impl ViewState {
    pub fn new() -> (r: ViewState)
        ensures
            !r.should_quit && !r.fullscreen_mode,
    {
        ViewState { should_quit: false, fullscreen_mode: false }
    }

    /// Take one key: change the view's own state and say what the panes
    /// must do.
    pub fn handle_key_event(&mut self, key: Key) -> (a: PaneAction)
        ensures
            (*final(self), a) == key_effect(*old(self), key),
    {
        match key {
            Key::Char('q') | Key::Esc => {
                self.should_quit = true;
                PaneAction::Stay
            },
            Key::Char('f') | Key::Enter => {
                self.fullscreen_mode = !self.fullscreen_mode;
                PaneAction::Stay
            },
            Key::Tab | Key::Right => PaneAction::FocusNext,
            Key::BackTab | Key::Left => PaneAction::FocusPrev,
            Key::Up | Key::Char('k') => PaneAction::ScrollUp,
            Key::Down | Key::Char('j') => PaneAction::ScrollDown(SCROLL_WINDOW),
            Key::Home => PaneAction::ResetScroll,
            Key::PageDown => PaneAction::NextPage,
            Key::PageUp => PaneAction::PrevPage,
            _ => PaneAction::Stay,
        }
    }
}

/// How long one turn of the view's loop waits for a key: what is left of
/// the tick interval, none once it has run out.
pub fn poll_timeout_ms(tick_rate_ms: u64, since_tick_ms: u64) -> (r: u64)
    ensures
        r == (if since_tick_ms <= tick_rate_ms {
            (tick_rate_ms - since_tick_ms) as u64
        } else {
            0
        }),
{
    tick_rate_ms.saturating_sub(since_tick_ms)
}

/// What one turn of the view's loop does after waiting for a key: what the
/// panes must do for the key, whether to tick the panes now, whether to
/// stop.
#[derive(Debug, Clone, Copy, PartialEq, Eq, Structural)]
pub struct TuiStep {
    pub action: PaneAction,
    pub tick: bool,
    pub quit: bool,
}

/// One turn of the view's loop: a key is taken only when it was pressed
/// (not released or repeated); the panes tick once the tick interval has
/// passed; a shutdown request stops the view as `q` does.
pub open spec fn tui_step_of(
    v: ViewState,
    key: Option<(Key, bool)>,
    tick_rate_ms: u64,
    since_tick_ms: u64,
    shutdown: bool,
) -> (ViewState, TuiStep) {
    let (v1, a) = match key {
        Some((k, true)) => key_effect(v, k),
        _ => (v, PaneAction::Stay),
    };
    let v2 = if shutdown {
        ViewState { should_quit: true, ..v1 }
    } else {
        v1
    };
    (v2, TuiStep { action: a, tick: since_tick_ms >= tick_rate_ms, quit: v2.should_quit })
}

/// Take one turn of the view's loop: `key` is the key event read, if any,
/// with whether it was a press; `since_tick_ms` is the time since the last
/// tick, read after the key; `shutdown` is whether a stop was asked for.
pub fn tui_step(
    state: &mut ViewState,
    key: Option<(Key, bool)>,
    tick_rate_ms: u64,
    since_tick_ms: u64,
    shutdown: bool,
) -> (r: TuiStep)
    ensures
        (*final(state), r) == tui_step_of(*old(state), key, tick_rate_ms, since_tick_ms, shutdown),
{
    let action = match key {
        Some((k, true)) => state.handle_key_event(k),
        _ => PaneAction::Stay,
    };
    if shutdown {
        state.should_quit = true;
    }
    TuiStep { action, tick: since_tick_ms >= tick_rate_ms, quit: state.should_quit }
}

/// The page marker of the status bar: ` [Page c/t] ` when there is more
/// than one page, nothing otherwise (`c` counted from one).
pub open spec fn page_info(total_pages: nat, current_page: nat) -> Seq<char> {
    if total_pages > 1 {
        " [Page "@ + dec(current_page) + "/"@ + dec(total_pages) + "] "@
    } else {
        Seq::empty()
    }
}

/// The status bar's help text for the view's mode and page.
pub open spec fn help_text(fullscreen: bool, total_pages: nat, current_page: nat) -> Seq<char> {
    page_info(total_pages, current_page) + if fullscreen {
        "f/Enter: Exit Fullscreen | ↑↓/jk: Scroll | Home: Top | q/Esc: Quit"@
    } else if total_pages > 1 {
        "PgUp/PgDn: Change Page | f/Enter: Fullscreen | Tab/←→: Switch | ↑↓/jk: Scroll | q/Esc: Quit"@
    } else {
        "f/Enter: Fullscreen | Tab/←→: Switch Pane | ↑↓/jk: Scroll | Home: Top | q/Esc: Quit"@
    }
}

/// The status bar's text; `current_page` counts from one.
pub fn status_help(fullscreen: bool, total_pages: u64, current_page: u64) -> (r: String)
    ensures
        r@ == help_text(fullscreen, total_pages as nat, current_page as nat),
{
    let mut v: Vec<char> = Vec::new();
    if total_pages > 1 {
        push_str(&mut v, " [Page ");
        push_dec(&mut v, current_page);
        push_str(&mut v, "/");
        push_dec(&mut v, total_pages);
        push_str(&mut v, "] ");
    }
    if fullscreen {
        push_str(&mut v, "f/Enter: Exit Fullscreen | ↑↓/jk: Scroll | Home: Top | q/Esc: Quit");
    } else if total_pages > 1 {
        push_str(&mut v, "PgUp/PgDn: Change Page | f/Enter: Fullscreen | Tab/←→: Switch | ↑↓/jk: Scroll | q/Esc: Quit");
    } else {
        push_str(&mut v, "f/Enter: Fullscreen | Tab/←→: Switch Pane | ↑↓/jk: Scroll | Home: Top | q/Esc: Quit");
    }
    assert(v@ =~= help_text(fullscreen, total_pages as nat, current_page as nat));
    string_of(v.as_slice())
}

} // verus!
