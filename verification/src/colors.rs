//! Per-task colours and the labels otto's own lines lead with.

use vstd::prelude::*;
use crate::order::{lex_le, lex_lt, goes_before, lemma_lex_irreflexive, lemma_lex_transitive, lemma_lex_trichotomy, stable_sort_indices};
use crate::text::{chars_of, str_eq, string_of, push_str};
use colored::Colorize;
use std::hash::{Hash, Hasher};

verus! {

/// The colours the task labels use.
#[derive(Debug, Clone, Copy, PartialEq, Eq, Structural)]
pub enum Color {
    BrightRed,
    BrightGreen,
    BrightYellow,
    BrightBlue,
    BrightMagenta,
    BrightCyan,
}

/// The fifteen (bracket, text) colour pairs, bracket never equal to text,
/// ordered so the first tasks get well-spread bracket colours.
pub open spec fn combination(i: int) -> (Color, Color) {
    if i == 0 { (Color::BrightRed, Color::BrightGreen) }
    else if i == 1 { (Color::BrightBlue, Color::BrightYellow) }
    else if i == 2 { (Color::BrightGreen, Color::BrightBlue) }
    else if i == 3 { (Color::BrightYellow, Color::BrightCyan) }
    else if i == 4 { (Color::BrightCyan, Color::BrightMagenta) }
    else if i == 5 { (Color::BrightRed, Color::BrightBlue) }
    else if i == 6 { (Color::BrightBlue, Color::BrightCyan) }
    else if i == 7 { (Color::BrightGreen, Color::BrightYellow) }
    else if i == 8 { (Color::BrightYellow, Color::BrightMagenta) }
    else if i == 9 { (Color::BrightRed, Color::BrightYellow) }
    else if i == 10 { (Color::BrightBlue, Color::BrightMagenta) }
    else if i == 11 { (Color::BrightGreen, Color::BrightCyan) }
    else if i == 12 { (Color::BrightRed, Color::BrightCyan) }
    else if i == 13 { (Color::BrightGreen, Color::BrightMagenta) }
    else { (Color::BrightRed, Color::BrightMagenta) }
}

/// How many colour pairs there are before they cycle.
pub const COMBINATION_COUNT: usize = 15;

pub fn color_combination(i: usize) -> (c: (Color, Color))
    requires
        i < COMBINATION_COUNT,
    ensures
        c == combination(i as int),
{
    if i == 0 { (Color::BrightRed, Color::BrightGreen) }
    else if i == 1 { (Color::BrightBlue, Color::BrightYellow) }
    else if i == 2 { (Color::BrightGreen, Color::BrightBlue) }
    else if i == 3 { (Color::BrightYellow, Color::BrightCyan) }
    else if i == 4 { (Color::BrightCyan, Color::BrightMagenta) }
    else if i == 5 { (Color::BrightRed, Color::BrightBlue) }
    else if i == 6 { (Color::BrightBlue, Color::BrightCyan) }
    else if i == 7 { (Color::BrightGreen, Color::BrightYellow) }
    else if i == 8 { (Color::BrightYellow, Color::BrightMagenta) }
    else if i == 9 { (Color::BrightRed, Color::BrightYellow) }
    else if i == 10 { (Color::BrightBlue, Color::BrightMagenta) }
    else if i == 11 { (Color::BrightGreen, Color::BrightCyan) }
    else if i == 12 { (Color::BrightRed, Color::BrightCyan) }
    else if i == 13 { (Color::BrightGreen, Color::BrightMagenta) }
    else { (Color::BrightRed, Color::BrightMagenta) }
}

/// All fifteen colour pairs, in order.
pub fn color_combinations() -> (v: Vec<(Color, Color)>)
    ensures
        v.len() == COMBINATION_COUNT,
        forall|i: int| 0 <= i < v.len() ==> v@[i] == combination(i),
{
    let mut v: Vec<(Color, Color)> = Vec::new();
    let mut i: usize = 0;
    while i < COMBINATION_COUNT
        invariant
            i <= COMBINATION_COUNT,
            v.len() == i,
            forall|j: int| 0 <= j < i ==> v@[j] == combination(j),
        decreases COMBINATION_COUNT - i,
    {
        v.push(color_combination(i));
        i = i + 1;
    }
    v
}

/// In every colour pair the brackets and the name differ.
pub proof fn combination_colors_differ(i: int)
    requires
        0 <= i < 15,
    ensures
        combination(i).0 != combination(i).1,
{
}

/// The run's task names in sorted order: the order colours are handed out in.
pub struct TaskOrder {
    names: Vec<String>,
}

impl View for TaskOrder {
    type V = Seq<Seq<char>>;

    closed spec fn view(&self) -> Seq<Seq<char>> {
        self.names@.map_values(|n: String| n@)
    }
}

/// `out` lists the members of `inp`, each once, in some order.
pub open spec fn is_permutation_of(out: Seq<Seq<char>>, inp: Seq<Seq<char>>) -> bool {
    exists|p: Seq<usize>|
        p.len() == out.len() && out.len() == inp.len() && (forall|a: int|
            0 <= a < p.len() ==> #[trigger] p[a] < inp.len() && out[a] == inp[p[a] as int]) && (
        forall|a: int, b: int| 0 <= a < b < p.len() ==> #[trigger] p[a] != #[trigger] p[b])
}

pub open spec fn sorted_names(s: Seq<Seq<char>>) -> bool {
    forall|a: int, b: int| 0 <= a < b < s.len() ==> lex_le(#[trigger] s[a], #[trigger] s[b])
}

impl TaskOrder {
    /// No order set: every colour comes from the name's hash.
    pub fn new() -> (o: TaskOrder)
        ensures
            o@ == Seq::<Seq<char>>::empty(),
    {
        let o = TaskOrder { names: Vec::new() };
        assert(o@ =~= Seq::<Seq<char>>::empty());
        o
    }

    /// A copy of this order.
    pub fn clone_order(&self) -> (r: TaskOrder)
        ensures
            r@ == self@,
    {
        let mut names: Vec<String> = Vec::new();
        let mut i: usize = 0;
        while i < self.names.len()
            invariant
                i <= self.names.len(),
                names@.len() == i,
                forall|k: int| 0 <= k < i ==> (#[trigger] names@[k])@ == self.names@[k]@,
            decreases self.names.len() - i,
        {
            names.push(self.names[i].clone());
            i = i + 1;
        }
        let r = TaskOrder { names };
        assert(r@ =~= self@);
        r
    }

    /// The names, in order.
    pub fn names(&self) -> (r: &Vec<String>)
        ensures
            r@.map_values(|n: String| n@) == self@,
    {
        &self.names
    }
}

/// The character vectors of each name.
pub fn keys_of(v: &Vec<String>) -> (r: Vec<Vec<char>>)
    ensures
        r@.map_values(|k: Vec<char>| k@) == v@.map_values(|n: String| n@),
{
    let mut r: Vec<Vec<char>> = Vec::new();
    let mut i: usize = 0;
    while i < v.len()
        invariant
            i <= v.len(),
            r.len() == i,
            forall|j: int| 0 <= j < i ==> #[trigger] r@[j]@ == v@[j]@,
        decreases v.len() - i,
    {
        let k = chars_of(v[i].as_str());
        r.push(k);
        i = i + 1;
    }
    assert(r@.map_values(|k: Vec<char>| k@) =~= v@.map_values(|n: String| n@));
    r
}

/// Fix the order colours are handed out in: the names sorted.
pub fn set_global_task_order(task_names: Vec<String>) -> (order: TaskOrder)
    ensures
        sorted_names(order@),
        is_permutation_of(order@, task_names@.map_values(|n: String| n@)),
{
    let keys = keys_of(&task_names);
    let perm = stable_sort_indices(&keys);
    let ghost ks = keys@.map_values(|k: Vec<char>| k@);
    let ghost inp = task_names@.map_values(|n: String| n@);
    let mut names: Vec<String> = Vec::new();
    let mut i: usize = 0;
    while i < perm.len()
        invariant
            i <= perm.len(),
            perm.len() == task_names.len(),
            ks == inp,
            inp == task_names@.map_values(|n: String| n@),
            forall|a: int| 0 <= a < perm.len() ==> #[trigger] perm@[a] < task_names.len(),
            names.len() == i,
            forall|a: int| 0 <= a < i ==> #[trigger] names@[a]@ == inp[perm@[a] as int],
        decreases perm.len() - i,
    {
        names.push(task_names[perm[i]].clone());
        i = i + 1;
    }
    let order = TaskOrder { names };
    proof {
        assert forall|a: int, b: int| 0 <= a < b < order@.len() implies lex_le(#[trigger] order@[a], #[trigger] order@[b]) by {
            assert(goes_before(ks, perm@[a] as int, perm@[b] as int));
        }
        assert forall|a: int, b: int| 0 <= a < b < perm@.len() implies #[trigger] perm@[a] != #[trigger] perm@[b] by {
            assert(goes_before(ks, perm@[a] as int, perm@[b] as int));
            if perm@[a] == perm@[b] {
                lemma_lex_irreflexive(ks[perm@[a] as int]);
            }
        }
        assert forall|a: int| 0 <= a < perm@.len() implies #[trigger] perm@[a] < inp.len() && order@[a] == inp[perm@[a] as int] by {
            assert(order@[a] == names@[a]@);
        }
        assert(is_permutation_of(order@, inp));
    }
    order
}

/// A list and any reordering of it hold the same names, each as often.
pub proof fn lemma_permutation_multiset(out: Seq<Seq<char>>, inp: Seq<Seq<char>>)
    requires
        is_permutation_of(out, inp),
    ensures
        out.to_multiset() == inp.to_multiset(),
    decreases out.len(),
{
    broadcast use vstd::seq_lib::group_to_multiset_ensures;

    let p = choose|p: Seq<usize>|
        p.len() == out.len() && out.len() == inp.len() && (forall|a: int|
            0 <= a < p.len() ==> #[trigger] p[a] < inp.len() && out[a] == inp[p[a] as int]) && (
        forall|a: int, b: int| 0 <= a < b < p.len() ==> #[trigger] p[a] != #[trigger] p[b]);
    if out.len() == 0 {
        assert(out =~= inp);
    } else {
        let n = out.len() - 1;
        let k = p[n] as int;
        let v = out[n];
        let rest_in = inp.remove(k);
        let rest_out = out.drop_last();
        let q = Seq::new(n as nat, |a: int| if p[a] < p[n] { p[a] } else { (p[a] - 1) as usize });
        assert forall|a: int| 0 <= a < q.len() implies #[trigger] q[a] < rest_in.len() && rest_out[a]
            == rest_in[q[a] as int] by {
            assert(p[a] != p[n]);
        }
        assert forall|a: int, b: int| 0 <= a < b < q.len() implies #[trigger] q[a] != #[trigger] q[b] by {
            assert(p[a] != p[n]);
            assert(p[b] != p[n]);
            assert(p[a] != p[b]);
        }
        assert(q.len() == rest_out.len() && rest_out.len() == rest_in.len());
        assert(is_permutation_of(rest_out, rest_in));
        lemma_permutation_multiset(rest_out, rest_in);
        assert(rest_out.push(v) =~= out);
        assert(rest_in.insert(k, inp[k]) =~= inp);
    }
}

/// `lex_le` orders all names totally.
pub proof fn lemma_lex_le_total()
    ensures
        vstd::relations::total_ordering(|a: Seq<char>, b: Seq<char>| lex_le(a, b)),
{
    let leq = |a: Seq<char>, b: Seq<char>| lex_le(a, b);
    assert forall|x: Seq<char>, y: Seq<char>| #[trigger] leq(x, y) && #[trigger] leq(y, x) implies x == y by {
        lemma_lex_trichotomy(x, y);
    }
    assert forall|x: Seq<char>, y: Seq<char>, z: Seq<char>| #[trigger] leq(x, y) && #[trigger] leq(y, z) implies leq(x, z) by {
        if lex_lt(x, y) && lex_lt(y, z) {
            lemma_lex_transitive(x, y, z);
        }
    }
    assert forall|x: Seq<char>, y: Seq<char>| #[trigger] leq(x, y) || #[trigger] leq(y, x) by {
        lemma_lex_trichotomy(x, y);
    }
}

/// The colours do not depend on the order the names are handed in: two
/// name lists holding the same names, each as often, give the same task
/// order and so the same colour pair for every task.
pub proof fn colors_ignore_input_order(
    first: Seq<Seq<char>>,
    second: Seq<Seq<char>>,
    first_order: Seq<Seq<char>>,
    second_order: Seq<Seq<char>>,
    name: Seq<char>,
)
    requires
        first.to_multiset() == second.to_multiset(),
        sorted_names(first_order),
        is_permutation_of(first_order, first),
        sorted_names(second_order),
        is_permutation_of(second_order, second),
    ensures
        first_order == second_order,
        task_colors(first_order, name) == task_colors(second_order, name),
{
    lemma_permutation_multiset(first_order, first);
    lemma_permutation_multiset(second_order, second);
    lemma_lex_le_total();
    let leq = |a: Seq<char>, b: Seq<char>| lex_le(a, b);
    assert(vstd::relations::sorted_by(first_order, leq));
    assert(vstd::relations::sorted_by(second_order, leq));
    vstd::seq_lib::lemma_sorted_unique(first_order, second_order, leq);
}

/// The hash `DefaultHasher` gives a task name (`str::hash` then `finish`).
pub uninterp spec fn default_str_hash(s: Seq<char>) -> u64;

/// Hashes `s` with a fresh `std::collections::hash_map::DefaultHasher`;
/// claims only that the result is a function of the characters, named
/// `default_str_hash`.
#[verifier::external_body]
fn str_hash(s: &str) -> (h: u64)
    ensures
        h == default_str_hash(s@),
{
    let mut hasher = std::collections::hash_map::DefaultHasher::new();
    s.hash(&mut hasher);
    hasher.finish()
}

/// The first position of `name` in `names`.
pub open spec fn position_of(names: Seq<Seq<char>>, name: Seq<char>) -> Option<int> {
    if exists|i: int| 0 <= i < names.len() && names[i] == name {
        Some(choose|i: int| 0 <= i < names.len() && names[i] == name && forall|j: int| 0 <= j < i ==> names[j] != name)
    } else {
        None
    }
}

/// The colour pair a task gets: by its place in the order, else by its hash.
pub open spec fn task_colors(order: Seq<Seq<char>>, name: Seq<char>) -> (Color, Color) {
    match position_of(order, name) {
        Some(p) => combination(p % 15),
        None => combination(((default_str_hash(name) as usize) % 15) as int),
    }
}

/// The (bracket, text) colours for `task_name`.
pub fn get_task_color_combination(order: &TaskOrder, task_name: &str) -> (c: (Color, Color))
    ensures
        c == task_colors(order@, task_name@),
{
    let mut i: usize = 0;
    while i < order.names.len()
        invariant
            i <= order.names.len(),
            forall|j: int| 0 <= j < i ==> order@[j] != task_name@,
        decreases order.names.len() - i,
    {
        if str_eq(order.names[i].as_str(), task_name) {
            proof {
                assert(order@[i as int] == task_name@);
                let p = choose|p: int| 0 <= p < order@.len() && order@[p] == task_name@ && forall|j: int| 0 <= j < p ==> order@[j] != task_name@;
                if p < i {
                    assert(order@[p] != task_name@);
                } else if p > i {
                    assert(order@[i as int] != task_name@);
                }
            }
            return color_combination(i % COMBINATION_COUNT);
        }
        i = i + 1;
    }
    let h = str_hash(task_name);
    color_combination((h as usize) % COMBINATION_COUNT)
}

/// The bracket colour for `task_name`.
pub fn get_task_color(order: &TaskOrder, task_name: &str) -> (c: Color)
    ensures
        c == task_colors(order@, task_name@).0,
{
    get_task_color_combination(order, task_name).0
}

/// The SGR foreground code `colored` writes for each colour.
pub open spec fn fg_code(color: Color) -> Seq<char> {
    match color {
        Color::BrightRed => seq!['9', '1'],
        Color::BrightGreen => seq!['9', '2'],
        Color::BrightYellow => seq!['9', '3'],
        Color::BrightBlue => seq!['9', '4'],
        Color::BrightMagenta => seq!['9', '5'],
        Color::BrightCyan => seq!['9', '6'],
    }
}

/// The escape that switches a foreground colour on: `ESC [ code m`.
pub open spec fn sgr_on(color: Color) -> Seq<char> {
    seq!['\u{1b}', '['] + fg_code(color) + seq!['m']
}

/// The escape that switches all colouring off: `ESC [ 0 m`.
pub open spec fn sgr_reset() -> Seq<char> {
    seq!['\u{1b}', '[', '0', 'm']
}

/// `text` with `style` written again after each reset escape inside it, so
/// nested colouring survives.
pub open spec fn reapply_after_resets(text: Seq<char>, style: Seq<char>) -> Seq<char>
    decreases text.len(),
{
    if text.len() == 0 {
        Seq::empty()
    } else if text.len() >= 4 && text.take(4) == sgr_reset() {
        sgr_reset() + style + reapply_after_resets(text.skip(4), style)
    } else {
        seq![text[0]] + reapply_after_resets(text.drop_first(), style)
    }
}

/// `text` painted in `color`, as `colored` writes it when colouring is on:
/// the colour's escape, the text, and the reset.
pub open spec fn painted(text: Seq<char>, color: Color) -> Seq<char> {
    sgr_on(color) + reapply_after_resets(text, sgr_on(color)) + sgr_reset()
}

/// `s` holds no escape character.
pub open spec fn no_escape(s: Seq<char>) -> bool {
    forall|m: int| 0 <= m < s.len() ==> s[m] != '\u{1b}'
}

/// `s` read from a point inside an escape sequence or outside one, with
/// every escape sequence (from `ESC` up to and including the next `m`)
/// taken out.
pub open spec fn strip_from(s: Seq<char>, in_escape: bool) -> Seq<char>
    decreases s.len(),
{
    if s.len() == 0 {
        Seq::empty()
    } else if in_escape {
        strip_from(s.drop_first(), s[0] != 'm')
    } else if s[0] == '\u{1b}' {
        strip_from(s.drop_first(), true)
    } else {
        seq![s[0]] + strip_from(s.drop_first(), false)
    }
}

/// `s` with its colour escapes taken out.
pub open spec fn strip_escapes(s: Seq<char>) -> Seq<char> {
    strip_from(s, false)
}

proof fn lemma_strip_plain(x: Seq<char>, y: Seq<char>)
    requires
        no_escape(x),
    ensures
        strip_from(x + y, false) == x + strip_from(y, false),
    decreases x.len(),
{
    if x.len() > 0 {
        assert((x + y)[0] == x[0]);
        assert((x + y).drop_first() =~= x.drop_first() + y);
        lemma_strip_plain(x.drop_first(), y);
        assert(x =~= seq![x[0]] + x.drop_first());
    } else {
        assert(x + y =~= y);
    }
}

proof fn lemma_strip_escape_tail(z: Seq<char>, y: Seq<char>)
    requires
        forall|m: int| 0 <= m < z.len() ==> z[m] != 'm',
    ensures
        strip_from(z + seq!['m'] + y, true) == strip_from(y, false),
    decreases z.len(),
{
    let s = z + seq!['m'] + y;
    if z.len() > 0 {
        assert(s[0] == z[0]);
        assert(s.drop_first() =~= z.drop_first() + seq!['m'] + y);
        lemma_strip_escape_tail(z.drop_first(), y);
    } else {
        assert(s[0] == 'm');
        assert(s.drop_first() =~= y);
    }
}

proof fn lemma_reapply_plain(x: Seq<char>, style: Seq<char>)
    requires
        no_escape(x),
    ensures
        reapply_after_resets(x, style) == x,
    decreases x.len(),
{
    if x.len() > 0 {
        if x.len() >= 4 {
            assert(x.take(4)[0] == x[0]);
            assert(sgr_reset()[0] == '\u{1b}');
        }
        lemma_reapply_plain(x.drop_first(), style);
        assert(x =~= seq![x[0]] + x.drop_first());
    }
}

proof fn lemma_strip_painted(x: Seq<char>, color: Color, y: Seq<char>)
    requires
        no_escape(x),
    ensures
        strip_from(painted(x, color) + y, false) == x + strip_from(y, false),
{
    lemma_reapply_plain(x, sgr_on(color));
    let code = seq!['['] + fg_code(color);
    let rest = x + sgr_reset() + y;
    let s = painted(x, color) + y;
    assert(s =~= seq!['\u{1b}'] + (code + seq!['m'] + rest));
    assert(s[0] == '\u{1b}');
    assert(s.drop_first() =~= code + seq!['m'] + rest);
    assert forall|m: int| 0 <= m < code.len() implies code[m] != 'm' by {
        if m > 0 {
            assert(code[m] == fg_code(color)[m - 1]);
        }
    }
    lemma_strip_escape_tail(code, rest);
    lemma_strip_plain(x, sgr_reset() + y);
    let t = sgr_reset() + y;
    assert(t[0] == '\u{1b}');
    assert(t.drop_first() =~= seq!['[', '0'] + seq!['m'] + y);
    lemma_strip_escape_tail(seq!['[', '0'], y);
    assert(x + sgr_reset() + y =~= x + t);
}

proof fn lemma_strip_piece(p: Seq<char>, x: Seq<char>, color: Color, y: Seq<char>)
    requires
        no_escape(x),
        paint_outcome(x, color, p),
    ensures
        strip_from(p + y, false) == x + strip_from(y, false),
{
    if p == x {
        lemma_strip_plain(x, y);
    } else {
        lemma_strip_painted(x, color, y);
    }
}

/// Taking the colour escapes out of a task's label leaves its plain label,
/// for a name with no escape character of its own.
pub proof fn label_without_escapes_is_plain(
    order: Seq<Seq<char>>,
    name: Seq<char>,
    no_prefix: bool,
    r: Seq<char>,
)
    requires
        no_escape(name),
        colored_label_outcome(order, name, no_prefix, r),
    ensures
        strip_escapes(r) == plain_label(name, no_prefix),
{
    let (bracket, text) = task_colors(order, name);
    let e = Seq::<char>::empty();
    assert(strip_from(e, false) == e);
    if no_prefix {
        lemma_strip_piece(r, name, bracket, e);
        assert(r + e =~= r);
        assert(name + e =~= name);
    } else {
        let open_b = seq!['['];
        let close_b = seq![']'];
        assert(no_escape(open_b));
        assert(no_escape(close_b));
        if r == plain_label(name, false) {
            assert(no_escape(r));
            lemma_strip_plain(r, e);
            assert(r + e =~= r);
            assert(r + e =~= r);
        } else {
            let (a, b, c) = choose|a: Seq<char>, b: Seq<char>, c: Seq<char>|
                paint_outcome(seq!['['], bracket, a) && paint_outcome(name, text, b) && paint_outcome(
                    seq![']'],
                    bracket,
                    c,
                ) && r == a + b + c;
            lemma_strip_piece(c, close_b, bracket, e);
            lemma_strip_piece(b, name, text, c + e);
            lemma_strip_piece(a, open_b, bracket, b + (c + e));
            assert(r =~= a + (b + (c + e)));
            assert(open_b + (name + (close_b + e)) =~= plain_label(name, false));
        }
    }
}

/// What painting `text` may come out as: painted, or plain when `colored`
/// has colouring switched off.
pub open spec fn paint_outcome(text: Seq<char>, color: Color, r: Seq<char>) -> bool {
    r == text || r == painted(text, color)
}

/// Calls `colored::Colorize::color` and formats the result. `colored` decides
/// from its process-wide switch whether the escapes are written, so the
/// claim is only that the text comes back either plain or painted.
#[verifier::external_body]
fn paint(text: &str, color: Color) -> (r: String)
    ensures
        r@ == text@ || r@ == painted(text@, color),
{
    let c = match color {
        Color::BrightRed => colored::Color::BrightRed,
        Color::BrightGreen => colored::Color::BrightGreen,
        Color::BrightYellow => colored::Color::BrightYellow,
        Color::BrightBlue => colored::Color::BrightBlue,
        Color::BrightMagenta => colored::Color::BrightMagenta,
        Color::BrightCyan => colored::Color::BrightCyan,
    };
    text.color(c).to_string()
}

/// `colored`'s own answer to whether to colour (`SHOULD_COLORIZE`), which it
/// derives from stdout and the environment; nothing is claimed of it.
#[verifier::external_body]
fn should_colorize() -> bool {
    colored::control::SHOULD_COLORIZE.should_colorize()
}

/// `[name]`, or the bare name under `--no-prefix`.
pub open spec fn plain_label(name: Seq<char>, no_prefix: bool) -> Seq<char> {
    if no_prefix {
        name
    } else {
        seq!['['] + name + seq![']']
    }
}

/// What a coloured label may come out as.
pub open spec fn colored_label_outcome(
    order: Seq<Seq<char>>,
    name: Seq<char>,
    no_prefix: bool,
    r: Seq<char>,
) -> bool {
    let (bracket, text) = task_colors(order, name);
    if no_prefix {
        r == name || paint_outcome(name, bracket, r)
    } else {
        r == plain_label(name, false) || exists|a: Seq<char>, b: Seq<char>, c: Seq<char>|
            paint_outcome(seq!['['], bracket, a) && paint_outcome(name, text, b) && paint_outcome(
                seq![']'],
                bracket,
                c,
            ) && r == a + b + c
    }
}

/// The task name in its bracket colour.
pub fn colorize_task_name(order: &TaskOrder, task_name: &str) -> (r: String)
    ensures
        colored_label_outcome(order@, task_name@, true, r@),
{
    if should_colorize() {
        paint(task_name, get_task_color(order, task_name))
    } else {
        let cs = chars_of(task_name);
        string_of(cs.as_slice())
    }
}

/// `[task_name]` with coloured brackets and a differently coloured name.
pub fn colorize_task_prefix(order: &TaskOrder, task_name: &str) -> (r: String)
    ensures
        colored_label_outcome(order@, task_name@, false, r@),
{
    if should_colorize() {
        let (bracket, text) = get_task_color_combination(order, task_name);
        let a = paint("[", bracket);
        let b = paint(task_name, text);
        let c = paint("]", bracket);
        let mut out: Vec<char> = Vec::new();
        push_str(&mut out, a.as_str());
        push_str(&mut out, b.as_str());
        push_str(&mut out, c.as_str());
        proof {
            reveal_strlit("[");
            reveal_strlit("]");
            assert("["@ =~= seq!['[']);
            assert("]"@ =~= seq![']']);
            assert(out@ =~= a@ + b@ + c@);
        }
        string_of(out.as_slice())
    } else {
        plain_task_label(task_name, false)
    }
}

/// What a line about a task leads with: `[task]`, or a bare `task` under
/// `--no-prefix`, coloured as `colored` decides.
pub fn task_label(order: &TaskOrder, task_name: &str, no_prefix: bool) -> (r: String)
    ensures
        colored_label_outcome(order@, task_name@, no_prefix, r@),
{
    if no_prefix {
        colorize_task_name(order, task_name)
    } else {
        colorize_task_prefix(order, task_name)
    }
}

/// The same label with no colour at all.
pub fn plain_task_label(task_name: &str, no_prefix: bool) -> (r: String)
    ensures
        r@ == plain_label(task_name@, no_prefix),
{
    let mut out: Vec<char> = Vec::new();
    if no_prefix {
        push_str(&mut out, task_name);
    } else {
        out.push('[');
        push_str(&mut out, task_name);
        out.push(']');
    }
    assert(out@ =~= plain_label(task_name@, no_prefix));
    string_of(out.as_slice())
}

/// Whether a stderr takes colour: a terminal does, and `CLICOLOR_FORCE`
/// set to anything but `0` forces it.
pub open spec fn stderr_color_rule(is_terminal: bool, force: Option<Seq<char>>) -> bool {
    is_terminal || (force matches Some(v) && v != "0"@)
}

/// The stderr colour decision as a function of its two inputs.
pub fn stderr_takes_color_from(is_terminal: bool, force: Option<&str>) -> (r: bool)
    ensures
        r == stderr_color_rule(
            is_terminal,
            match force {
                Some(v) => Some(v@),
                None => None,
            },
        ),
{
    is_terminal || match force {
        Some(v) => !str_eq(v, "0"),
        None => false,
    }
}

/// The label for a line written to a stream that takes colour or does not.
pub fn stream_task_label(order: &TaskOrder, task_name: &str, no_prefix: bool, takes_color: bool) -> (r: String)
    ensures
        !takes_color ==> r@ == plain_label(task_name@, no_prefix),
        takes_color ==> colored_label_outcome(order@, task_name@, no_prefix, r@),
{
    if takes_color {
        task_label(order, task_name, no_prefix)
    } else {
        plain_task_label(task_name, no_prefix)
    }
}

} // verus!
