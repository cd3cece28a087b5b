//! The text of the live region: how many task rows a terminal gets, what one
//! row says, and how a task name is made safe to draw.

use vstd::prelude::*;
use std::time::Duration;
use unicode_segmentation::UnicodeSegmentation;
use crate::colors::{colored_label_outcome, stream_task_label, TaskOrder};
use crate::duration::{secs_of, task_duration_text, format_secs};
use crate::heartbeat::TaskClock;
use crate::text::{chars_of, push_all, push_str, starts_with, string_of, string_views, sub_chars};

verus! {

/// Rows kept free above the region at most.
pub const RESERVED_ROWS: u16 = 6;

/// The fewest task rows the region draws when the terminal has room.
pub const MIN_ROWS: usize = 3;

/// The region's own rows besides the task rows: the separator and the
/// overflow row.
pub const CHROME_ROWS: u16 = 2;

/// The widest a name column gets.
pub const MAX_NAME_WIDTH: usize = 24;

/// How long a task must be silent, in milliseconds, before its row says so.
pub const IDLE_THRESHOLD_MS: u64 = 5000;

/// How many task rows a terminal `height` rows tall gets: `height - 6`, at
/// least 3, but never more than leaves the separator and the overflow row a
/// line each, and never fewer than one.
pub open spec fn row_cap_of(height: nat) -> nat {
    let room: nat = if height >= 6 {
        (height - 6) as nat
    } else {
        0
    };
    let floor: nat = if room >= 3 {
        room
    } else {
        3
    };
    let clamp: nat = if height >= 3 {
        (height - 2) as nat
    } else {
        1
    };
    if floor <= clamp {
        floor
    } else {
        clamp
    }
}

pub fn row_cap(height: u16) -> (r: usize)
    ensures
        r == row_cap_of(height as nat),
        r >= 1,
        r + 2 <= if height >= 3 {
            height as nat
        } else {
            3
        },
{
    let room: usize = height.saturating_sub(RESERVED_ROWS) as usize;
    let floor = if room >= MIN_ROWS {
        room
    } else {
        MIN_ROWS
    };
    let clamp: usize = if height >= 3 {
        (height - CHROME_ROWS) as usize
    } else {
        1
    };
    if floor <= clamp {
        floor
    } else {
        clamp
    }
}

/// `char::is_control`: the C0 controls, `DEL`, and the C1 controls.
pub open spec fn is_control_char(c: char) -> bool {
    (c as u32) <= 0x1f || (0x7f <= (c as u32) && (c as u32) <= 0x9f)
}

/// The index after the final byte of an escape sequence's parameters that
/// start at `j`: the first character in `@`..`~`, or the end.
pub open spec fn csi_end(s: Seq<char>, j: nat) -> nat
    decreases s.len() - j,
{
    if j >= s.len() {
        s.len()
    } else if '@' <= s[j as int] && s[j as int] <= '~' {
        j + 1
    } else {
        csi_end(s, j + 1)
    }
}

pub proof fn lemma_csi_end(s: Seq<char>, j: nat)
    ensures
        csi_end(s, j) >= j || j > s.len(),
        csi_end(s, j) <= s.len(),
        j <= s.len() ==> csi_end(s, j) >= j,
    decreases s.len() - j,
{
    if j < s.len() && !('@' <= s[j as int] && s[j as int] <= '~') {
        lemma_csi_end(s, j + 1);
    }
}

/// `s` from index `i` made safe to draw: a tab becomes four spaces; `ESC`
/// is dropped with the character after it, and when that is `[`, with the
/// sequence through its final character; other control characters are
/// dropped.
pub open spec fn sanitized_from(s: Seq<char>, i: nat) -> Seq<char>
    decreases s.len() - i,
{
    if i >= s.len() {
        Seq::empty()
    } else {
        let c = s[i as int];
        if c == '\t' {
            seq![' ', ' ', ' ', ' '] + sanitized_from(s, i + 1)
        } else if c == '\x1b' {
            if i + 1 < s.len() {
                if s[i + 1int] == '[' {
                    let j = csi_end(s, i + 2);
                    proof {
                        lemma_csi_end(s, i + 2);
                    }
                    if j > i {
                        sanitized_from(s, j)
                    } else {
                        Seq::empty()
                    }
                } else {
                    sanitized_from(s, i + 2)
                }
            } else {
                Seq::empty()
            }
        } else if is_control_char(c) {
            sanitized_from(s, i + 1)
        } else {
            seq![c] + sanitized_from(s, i + 1)
        }
    }
}

pub open spec fn sanitized(s: Seq<char>) -> Seq<char> {
    sanitized_from(s, 0)
}

pub proof fn lemma_sanitized_from_clean(s: Seq<char>, i: nat)
    ensures
        forall|k: int|
            0 <= k < sanitized_from(s, i).len() ==> !is_control_char(#[trigger] sanitized_from(s, i)[k]),
    decreases s.len() - i,
{
    if i < s.len() {
        let c = s[i as int];
        if c == '\t' {
            lemma_sanitized_from_clean(s, i + 1);
            let rest = sanitized_from(s, i + 1);
            assert forall|k: int| 0 <= k < sanitized_from(s, i).len() implies !is_control_char(
                #[trigger] sanitized_from(s, i)[k],
            ) by {
                assert(sanitized_from(s, i) == seq![' ', ' ', ' ', ' '] + rest);
                if k >= 4 {
                    assert(sanitized_from(s, i)[k] == rest[k - 4]);
                } else {
                    assert(sanitized_from(s, i)[k] == ' ');
                }
            }
        } else if c == '\x1b' {
            if i + 1 < s.len() {
                if s[i + 1int] == '[' {
                    lemma_csi_end(s, i + 2);
                    let j = csi_end(s, i + 2);
                    if j > i {
                        lemma_sanitized_from_clean(s, j);
                        assert(sanitized_from(s, i) == sanitized_from(s, j));
                    }
                } else {
                    lemma_sanitized_from_clean(s, i + 2);
                    assert(sanitized_from(s, i) == sanitized_from(s, i + 2));
                }
            }
        } else if is_control_char(c) {
            lemma_sanitized_from_clean(s, i + 1);
            assert(sanitized_from(s, i) == sanitized_from(s, i + 1));
        } else {
            lemma_sanitized_from_clean(s, i + 1);
            let rest = sanitized_from(s, i + 1);
            assert forall|k: int| 0 <= k < sanitized_from(s, i).len() implies !is_control_char(
                #[trigger] sanitized_from(s, i)[k],
            ) by {
                assert(sanitized_from(s, i) == seq![c] + rest);
                if k >= 1 {
                    assert(sanitized_from(s, i)[k] == rest[k - 1]);
                }
            }
        }
    }
}

/// What `sanitize` gives holds no control character at all: no escape, no
/// carriage return, no tab; the only escapes on a row are the ones otto
/// adds.
pub proof fn sanitized_text_has_no_control_characters(s: Seq<char>)
    ensures
        forall|k: int| 0 <= k < sanitized(s).len() ==> !is_control_char(#[trigger] sanitized(s)[k]),
{
    lemma_sanitized_from_clean(s, 0);
}

/// `text` made safe to draw inside the region.
pub fn sanitize(text: &str) -> (r: String)
    ensures
        r@ == sanitized(text@),
{
    let cs = chars_of(text);
    let n = cs.len();
    let mut out: Vec<char> = Vec::new();
    let mut i: usize = 0;
    while i < n
        invariant
            n == cs.len(),
            i <= n,
            out@ + sanitized_from(cs@, i as nat) == sanitized(cs@),
        decreases n - i,
    {
        let c = cs[i];
        let ghost before = out@;
        if c == '\t' {
            out.push(' ');
            out.push(' ');
            out.push(' ');
            out.push(' ');
            assert(out@ =~= before + seq![' ', ' ', ' ', ' ']);
            i = i + 1;
        } else if c == '\x1b' {
            if i + 1 < n {
                if cs[i + 1] == '[' {
                    proof {
                        lemma_csi_end(cs@, (i + 2) as nat);
                    }
                    let mut j = i + 2;
                    while j < n && !('@' <= cs[j] && cs[j] <= '~')
                        invariant
                            n == cs.len(),
                            i + 2 <= j <= n,
                            csi_end(cs@, (i + 2) as nat) == csi_end(cs@, j as nat),
                        decreases n - j,
                    {
                        j = j + 1;
                    }
                    if j < n {
                        j = j + 1;
                    }
                    i = j;
                } else {
                    i = i + 2;
                }
            } else {
                i = n;
            }
        } else if (c as u32) <= 0x1f || (0x7f <= (c as u32) && (c as u32) <= 0x9f) {
            i = i + 1;
        } else {
            out.push(c);
            assert(out@ =~= before + seq![c]);
            i = i + 1;
        }
    }
    assert(out@ + Seq::<char>::empty() =~= out@);
    string_of(out.as_slice())
}

/// How many terminal columns `text` takes, as `console` measures it.
pub uninterp spec fn text_width(text: Seq<char>) -> nat;

/// Calls `console::measure_text_width`: the display width of `text`, escape
/// sequences not counted.
#[verifier::external_body]
fn measure_width(text: &str) -> (r: usize)
    ensures
        r == text_width(text@),
{
    console::measure_text_width(text)
}

/// The extended grapheme clusters of `text`, as `unicode-segmentation`
/// splits it.
pub uninterp spec fn clusters_of(text: Seq<char>) -> Seq<Seq<char>>;

/// Calls `UnicodeSegmentation::graphemes(text, true)`, each cluster as a
/// `String`.
#[verifier::external_body]
fn graphemes(text: &str) -> (r: Vec<String>)
    ensures
        string_views(r@) == clusters_of(text@),
{
    text.graphemes(true).map(|g| g.to_string()).collect()
}

/// The clusters of `cs`, from the `k`-th on, that fit in `room` columns,
/// stopping at the first that does not.
pub open spec fn fitting_clusters(cs: Seq<Seq<char>>, k: nat, room: int) -> Seq<char>
    decreases cs.len() - k,
{
    if k >= cs.len() {
        Seq::empty()
    } else if text_width(cs[k as int]) > room {
        Seq::empty()
    } else {
        cs[k as int] + fitting_clusters(cs, k + 1, room - text_width(cs[k as int]))
    }
}

/// `text` cut to `width` columns on a cluster boundary.
pub open spec fn truncated(text: Seq<char>, width: nat) -> Seq<char> {
    if text_width(text) <= width {
        text
    } else {
        fitting_clusters(clusters_of(text), 0, width as int)
    }
}

pub fn truncate(text: &str, width: usize) -> (r: String)
    ensures
        r@ == truncated(text@, width as nat),
{
    if measure_width(text) <= width {
        return string_of(chars_of(text).as_slice());
    }
    let cs = graphemes(text);
    let ghost cv = string_views(cs@);
    let mut out: Vec<char> = Vec::new();
    let mut used: usize = 0;
    let mut k: usize = 0;
    while k < cs.len()
        invariant
            k <= cs.len(),
            used <= width,
            text_width(text@) > width,
            cv == string_views(cs@),
            cv == clusters_of(text@),
            out@ + fitting_clusters(cv, k as nat, width - used) == fitting_clusters(cv, 0, width as int),
        decreases cs.len() - k,
    {
        assert(cv[k as int] == cs@[k as int]@);
        let cost = measure_width(cs[k].as_str());
        if cost > width - used {
            assert(fitting_clusters(cv, k as nat, width - used) == Seq::<char>::empty());
            assert(out@ + Seq::<char>::empty() =~= out@);
            return string_of(out.as_slice());
        }
        let ghost before = out@;
        push_str(&mut out, cs[k].as_str());
        assert(out@ + fitting_clusters(cv, (k + 1) as nat, width - (used + cost)) =~= before + (cv[k as int]
            + fitting_clusters(cv, (k + 1) as nat, (width - used) - cost)));
        used = used + cost;
        k = k + 1;
    }
    assert(out@ + Seq::<char>::empty() =~= out@);
    string_of(out.as_slice())
}

/// The head of a row coloured as the task's name, when the row takes colour
/// and still starts with the whole label; the text unchanged otherwise.
pub open spec fn colorized_outcome(
    order: Seq<Seq<char>>,
    text: Seq<char>,
    label: Seq<char>,
    color: bool,
    r: Seq<char>,
) -> bool {
    if !color || !(label.len() <= text.len() && text.take(label.len() as int) == label) {
        r == text
    } else {
        exists|head: Seq<char>|
            #[trigger] colored_label_outcome(order, label, true, head) && r == head + text.skip(
                label.len() as int,
            )
    }
}

pub fn colorize_name(order: &TaskOrder, text: &str, label: &str, color: bool) -> (r: String)
    ensures
        colorized_outcome(order@, text@, label@, color, r@),
{
    let tc = chars_of(text);
    let lc = chars_of(label);
    if !color || !starts_with(&tc, &lc) {
        return string_of(tc.as_slice());
    }
    let head = stream_task_label(order, label, true, true);
    let tail = sub_chars(&tc, lc.len(), tc.len());
    let mut out: Vec<char> = Vec::new();
    push_str(&mut out, head.as_str());
    push_all(&mut out, tail.as_slice());
    let r = string_of(out.as_slice());
    proof {
        assert(colored_label_outcome(order@, label@, true, head@));
        assert(r@ =~= head@ + text@.skip(label@.len() as int));
    }
    r
}

/// `s` padded with spaces on the right to `width` characters.
pub open spec fn pad_right(s: Seq<char>, width: nat) -> Seq<char> {
    if s.len() >= width {
        s
    } else {
        s + Seq::new((width - s.len()) as nat, |i: int| ' ')
    }
}

/// A row's text before it is cut and coloured: the padded label, how long
/// the task has run, and, past the idle threshold, how long it has been
/// silent.
pub open spec fn plain_row(label: Seq<char>, name_width: nat, elapsed_secs: nat, idle_ms: nat) -> Seq<char> {
    pad_right(label, name_width) + "  running "@ + task_duration_text(elapsed_secs) + if idle_ms
        >= 5000 {
        "   no output for "@ + task_duration_text(idle_ms / 1000)
    } else {
        Seq::empty()
    }
}

/// One running task's row.
pub struct Row {
    /// The task's name as the scheduler spells it.
    pub name: String,
    /// The name as it is safe to draw.
    pub label: String,
    pub clock: TaskClock,
}

/// A row's text for a task that has run `elapsed_secs` seconds and been
/// silent `idle_ms` milliseconds: cut to `width` columns, then its name
/// coloured when the row takes colour.
pub fn row_text_with(
    order: &TaskOrder,
    label: &str,
    name_width: usize,
    width: usize,
    color: bool,
    elapsed_secs: u64,
    idle_ms: u64,
) -> (r: String)
    ensures
        colorized_outcome(
            order@,
            truncated(plain_row(label@, name_width as nat, elapsed_secs as nat, idle_ms as nat), width as nat),
            label@,
            color,
            r@,
        ),
{
    let mut line = chars_of(label);
    let ghost l = label@;
    while line.len() < name_width
        invariant
            l.len() <= line@.len() <= if l.len() >= name_width {
                l.len() as nat
            } else {
                name_width as nat
            },
            line@ == l + Seq::new((line@.len() - l.len()) as nat, |i: int| ' '),
        decreases name_width - line.len(),
    {
        line.push(' ');
        assert(line@ =~= l + Seq::new((line@.len() - l.len()) as nat, |i: int| ' '));
    }
    proof {
        if l.len() >= name_width {
            assert(line@ =~= l);
        } else {
            assert(line@ =~= pad_right(l, name_width as nat));
        }
    }
    push_str(&mut line, "  running ");
    let took = format_secs(elapsed_secs);
    push_str(&mut line, took.as_str());
    if idle_ms >= IDLE_THRESHOLD_MS {
        push_str(&mut line, "   no output for ");
        let quiet = format_secs(idle_ms / 1000);
        push_str(&mut line, quiet.as_str());
    }
    assert(line@ =~= plain_row(l, name_width as nat, elapsed_secs as nat, idle_ms as nat));
    let plain = string_of(line.as_slice());
    let cut = truncate(plain.as_str(), width);
    colorize_name(order, cut.as_str(), label, color)
}

/// A row's text, read from its clock now.
pub fn row_text(order: &TaskOrder, row: &Row, name_width: usize, width: usize, color: bool) -> (r: String)
    ensures
        exists|elapsed_secs: nat, idle_ms: nat|
            colorized_outcome(
                order@,
                truncated(plain_row(row.label@, name_width as nat, elapsed_secs, idle_ms), width as nat),
                row.label@,
                color,
                r@,
            ),
{
    let idle = row.clock.idle_ms();
    let secs = secs_of(row.clock.elapsed());
    row_text_with(order, row.label.as_str(), name_width, width, color, secs, idle)
}

} // verus!
