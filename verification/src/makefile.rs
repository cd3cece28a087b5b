//! A Makefile reader: variables, targets with their recipes, `.PHONY` and
//! `.DEFAULT_GOAL`, read line by line.

use vstd::prelude::*;
use crate::text::{
    chars_of, ends_with_char, find, find_s, lemma_find_from_some, lines, lines_s,
    split_whitespace, starts_with, starts_with_s, string_of, string_views, sub_chars, trim,
    trim_end, trim_end_char, trim_end_char_s, trim_end_s, trim_s, trim_start, trim_start_s, views,
    words_s, chars_eq, has_char, insert_name, contains_string, lemma_insert_name,
};

verus! {

/// How a variable is assigned.
#[derive(Debug, Clone, Copy, PartialEq, Eq, Structural)]
pub enum AssignmentType {
    /// `:=`, expanded once.
    Simple,
    /// `=`, expanded at each use.
    Recursive,
    /// `?=`, only where the variable is unset.
    Conditional,
    /// `+=`, appended to the earlier value.
    Append,
    /// `:=` whose value runs `$(shell ...)`.
    ShellExecution,
}

/// One variable assignment.
#[derive(Debug, Clone)]
pub struct Variable {
    pub name: String,
    pub value: String,
    pub assignment_type: AssignmentType,
}

/// One target with its prerequisites and recipe.
#[derive(Debug, Clone)]
pub struct Target {
    pub name: String,
    pub dependencies: Vec<String>,
    pub commands: Vec<String>,
    /// The comment line directly above the target, if any.
    pub comment: Option<String>,
    pub is_phony: bool,
}

/// What a Makefile declares.
#[derive(Debug, Clone)]
pub struct MakefileAst {
    pub variables: Vec<Variable>,
    pub targets: Vec<Target>,
    /// The names listed by `.PHONY`, each once, in the order first declared.
    pub phony_targets: Vec<String>,
    pub default_goal: Option<String>,
}

pub struct VariableView {
    pub name: Seq<char>,
    pub value: Seq<char>,
    pub assignment_type: AssignmentType,
}

pub struct TargetView {
    pub name: Seq<char>,
    pub dependencies: Seq<Seq<char>>,
    pub commands: Seq<Seq<char>>,
    pub comment: Option<Seq<char>>,
    pub is_phony: bool,
}

pub struct MakefileView {
    pub variables: Seq<VariableView>,
    pub targets: Seq<TargetView>,
    pub phony_targets: Seq<Seq<char>>,
    pub default_goal: Option<Seq<char>>,
}

pub open spec fn opt_view(o: Option<String>) -> Option<Seq<char>> {
    match o {
        Some(s) => Some(s@),
        None => None,
    }
}

impl View for Variable {
    type V = VariableView;

    open spec fn view(&self) -> VariableView {
        VariableView { name: self.name@, value: self.value@, assignment_type: self.assignment_type }
    }
}

impl View for Target {
    type V = TargetView;

    open spec fn view(&self) -> TargetView {
        TargetView {
            name: self.name@,
            dependencies: string_views(self.dependencies@),
            commands: string_views(self.commands@),
            comment: opt_view(self.comment),
            is_phony: self.is_phony,
        }
    }
}

impl View for MakefileAst {
    type V = MakefileView;

    open spec fn view(&self) -> MakefileView {
        MakefileView {
            variables: self.variables@.map_values(|v: Variable| v@),
            targets: self.targets@.map_values(|t: Target| t@),
            phony_targets: string_views(self.phony_targets@),
            default_goal: opt_view(self.default_goal),
        }
    }
}

pub open spec fn empty_view() -> MakefileView {
    MakefileView {
        variables: Seq::empty(),
        targets: Seq::empty(),
        phony_targets: Seq::empty(),
        default_goal: None,
    }
}

// ---------------------------------------------------------------------------
// The grammar, line by line.
// ---------------------------------------------------------------------------

/// A recipe line: one that starts with a tab.
pub open spec fn tab_line(l: Seq<char>) -> bool {
    l.len() > 0 && l[0] == '\t'
}

pub open spec fn ends_with_backslash(l: Seq<char>) -> bool {
    l.len() > 0 && l.last() == '\\'
}

/// The assignment operators, in the order they are tried: `:=`, `?=`, `+=`, `=`.
pub open spec fn assign_op(k: nat) -> Seq<char> {
    if k == 0 {
        seq![':', '=']
    } else if k == 1 {
        seq!['?', '=']
    } else if k == 2 {
        seq!['+', '=']
    } else {
        seq!['=']
    }
}

pub open spec fn shell_call() -> Seq<char> {
    seq!['$', '(', 's', 'h', 'e', 'l', 'l', ' ']
}

/// The kind of assignment made by operator `k` with value `value`.
pub open spec fn assignment_kind(k: nat, value: Seq<char>) -> AssignmentType {
    if k == 0 {
        if find_s(value, shell_call()) is Some {
            AssignmentType::ShellExecution
        } else {
            AssignmentType::Simple
        }
    } else if k == 1 {
        AssignmentType::Conditional
    } else if k == 2 {
        AssignmentType::Append
    } else {
        AssignmentType::Recursive
    }
}

/// The assignment a line makes, trying the operators from the `k`-th on.
/// The first operator that occurs in the line decides: a recipe line, an
/// empty name, or a name holding `:` (for any operator but `:=`) is no
/// assignment.
pub open spec fn variable_from(line: Seq<char>, k: nat) -> Option<VariableView>
    decreases 4 - k,
{
    if k >= 4 {
        None
    } else {
        match find_s(line, assign_op(k)) {
            None => variable_from(line, k + 1),
            Some(pos) => {
                if tab_line(line) {
                    None
                } else {
                    let name = trim_s(line.take(pos as int));
                    let value = trim_s(line.skip(pos + assign_op(k).len() as int));
                    if name.len() == 0 || (name.contains(':') && k != 0) {
                        None
                    } else {
                        Some(
                            VariableView {
                                name,
                                value,
                                assignment_type: assignment_kind(k, value),
                            },
                        )
                    }
                }
            },
        }
    }
}

pub open spec fn variable_of(line: Seq<char>) -> Option<VariableView> {
    variable_from(line, 0)
}

pub open spec fn phony_prefix() -> Seq<char> {
    seq!['.', 'P', 'H', 'O', 'N', 'Y', ':']
}

pub open spec fn phony_name() -> Seq<char> {
    seq!['.', 'P', 'H', 'O', 'N', 'Y']
}

pub open spec fn default_goal_prefix() -> Seq<char> {
    seq!['.', 'D', 'E', 'F', 'A', 'U', 'L', 'T', '_', 'G', 'O', 'A', 'L']
}

/// The names a `.PHONY:` line declares, for a trimmed line.
pub open spec fn phony_list(t: Seq<char>) -> Option<Seq<Seq<char>>> {
    if starts_with_s(t, phony_prefix()) {
        Some(words_s(t.skip(7)))
    } else {
        None
    }
}

/// The goal a `.DEFAULT_GOAL` line names, for a trimmed line: what follows
/// its first `:=`, or else its first `=`, trimmed.
pub open spec fn default_goal_of(t: Seq<char>) -> Option<Seq<char>> {
    if starts_with_s(t, default_goal_prefix()) {
        match find_s(t, seq![':', '=']) {
            Some(p) => Some(trim_s(t.skip(p + 2int))),
            None => match find_s(t, seq!['=']) {
                Some(p) => Some(trim_s(t.skip(p + 1int))),
                None => None,
            },
        }
    } else {
        None
    }
}

pub open spec fn insert_names(s: Seq<Seq<char>>, xs: Seq<Seq<char>>) -> Seq<Seq<char>>
    decreases xs.len(),
{
    if xs.len() == 0 {
        s
    } else {
        insert_names(insert_name(s, xs[0]), xs.drop_first())
    }
}

/// A recipe line continued with `\`: the lines from `i` on that start with a
/// tab are joined to `acc` with a space, each without its leading
/// whitespace, until one that does not end in `\`. Gives the joined command
/// and the index after it.
pub open spec fn continue_from(lines: Seq<Seq<char>>, i: nat, acc: Seq<char>) -> (Seq<char>, nat)
    decreases lines.len() - i,
{
    if i < lines.len() && tab_line(lines[i as int]) {
        let next = lines[i as int].drop_first();
        let joined = acc + seq![' '] + trim_start_s(next);
        if ends_with_backslash(trim_end_s(next)) {
            continue_from(lines, i + 1, trim_end_char_s(trim_end_s(joined), '\\'))
        } else {
            (joined, i + 1)
        }
    } else {
        (acc, i)
    }
}

/// The recipe that starts at line `i`: each tab-started line without its tab,
/// continuations joined. Gives the commands and the index after them.
pub open spec fn commands_from(lines: Seq<Seq<char>>, i: nat) -> (Seq<Seq<char>>, nat)
    decreases lines.len() - i,
{
    if i < lines.len() && tab_line(lines[i as int]) {
        let cmd = lines[i as int].drop_first();
        if ends_with_backslash(trim_end_s(cmd)) {
            let start = trim_end_char_s(trim_end_s(cmd), '\\');
            let joined = continue_from(lines, i + 1, start);
            proof {
                lemma_continue_index(lines, i + 1, start);
            }
            let rest = commands_from(lines, joined.1);
            (seq![joined.0] + rest.0, rest.1)
        } else {
            let rest = commands_from(lines, i + 1);
            (seq![cmd] + rest.0, rest.1)
        }
    } else {
        (Seq::empty(), i)
    }
}

/// What a line that names a target yields.
pub enum TargetStep {
    /// A target, and the index after its recipe.
    Found(TargetView, nat),
    /// No target; reading goes on after the line at the given index.
    Skipped(nat),
}

/// The target declared at line `i`, with the comment above it. A target whose
/// name is empty or starts with `.` (but for `.PHONY`) is skipped: only its
/// own line is passed over.
pub open spec fn target_at(lines: Seq<Seq<char>>, i: nat, comment: Option<Seq<char>>) -> TargetStep {
    let line = lines[i as int];
    let t = trim_s(line);
    if tab_line(line) {
        TargetStep::Skipped(i)
    } else {
        match find_s(t, seq![':']) {
            None => TargetStep::Skipped(i),
            Some(pos) => {
                let name = trim_s(t.take(pos as int));
                if name.len() == 0 || (name[0] == '.' && name != phony_name()) {
                    TargetStep::Skipped(i)
                } else {
                    let recipe = commands_from(lines, i + 1);
                    TargetStep::Found(
                        TargetView {
                            name,
                            dependencies: words_s(t.skip(pos + 1int)),
                            commands: recipe.0,
                            comment,
                            is_phony: false,
                        },
                        recipe.1,
                    )
                }
            },
        }
    }
}

/// The declarations read from line `i` on, added to `acc`; `comment` is the
/// comment directly above line `i`. Blank lines and unknown lines drop the
/// comment; a comment line replaces it.
pub open spec fn parse_from(
    lines: Seq<Seq<char>>,
    i: nat,
    comment: Option<Seq<char>>,
    acc: MakefileView,
) -> MakefileView
    decreases lines.len() + 1 - i,
{
    if i >= lines.len() {
        acc
    } else {
        let line = lines[i as int];
        let t = trim_s(line);
        if t.len() == 0 {
            parse_from(lines, i + 1, None, acc)
        } else if t[0] == '#' {
            parse_from(lines, i + 1, Some(trim_s(t.drop_first())), acc)
        } else if phony_list(t) is Some {
            parse_from(
                lines,
                i + 1,
                None,
                MakefileView {
                    phony_targets: insert_names(acc.phony_targets, phony_list(t).unwrap()),
                    ..acc
                },
            )
        } else if default_goal_of(t) is Some {
            parse_from(lines, i + 1, None, MakefileView { default_goal: default_goal_of(t), ..acc })
        } else if variable_of(line) is Some {
            parse_from(
                lines,
                i + 1,
                None,
                MakefileView { variables: acc.variables.push(variable_of(line).unwrap()), ..acc },
            )
        } else if t.contains(':') && t[0] != '\t' {
            match target_at(lines, i, comment) {
                TargetStep::Found(tv, j) => {
                    proof {
                        lemma_commands_index(lines, i + 1);
                    }
                    if j > i {
                        parse_from(lines, j, None, MakefileView { targets: acc.targets.push(tv), ..acc })
                    } else {
                        acc
                    }
                },
                TargetStep::Skipped(j) => {
                    if j <= i + 1 {
                        parse_from(lines, j + 1, None, acc)
                    } else {
                        acc
                    }
                },
            }
        } else {
            parse_from(lines, i + 1, None, acc)
        }
    }
}

/// A line that, trimmed, starts with `.DEFAULT_GOAL` and holds an `=` sets
/// the default goal to the trimmed text after its first `:=`, or, when it
/// holds no `:=`, after its first `=`; it records no variable, target or
/// `.PHONY` name, and reading goes on at the next line.
pub proof fn a_default_goal_line_sets_the_goal(
    lines: Seq<Seq<char>>,
    i: nat,
    comment: Option<Seq<char>>,
    acc: MakefileView,
    p: nat,
)
    requires
        i < lines.len(),
        starts_with_s(trim_s(lines[i as int]), default_goal_prefix()),
        find_s(trim_s(lines[i as int]), seq![':', '=']) is Some || find_s(trim_s(lines[i as int]), seq!['='])
            == Some(p),
    ensures
        parse_from(lines, i, comment, acc) == parse_from(
            lines,
            i + 1,
            None,
            MakefileView {
                default_goal: Some(
                    match find_s(trim_s(lines[i as int]), seq![':', '=']) {
                        Some(q) => trim_s(trim_s(lines[i as int]).skip(q + 2int)),
                        None => trim_s(trim_s(lines[i as int]).skip(p + 1int)),
                    },
                ),
                ..acc
            },
        ),
{
    let t = trim_s(lines[i as int]);
    assert(t.len() >= 13);
    assert(t.take(13) =~= default_goal_prefix());
    assert(t[0] == '.');
    assert(t[0] != '#');
    assert(phony_list(t) is None) by {
        if starts_with_s(t, phony_prefix()) {
            assert(t.take(7)[1] == 'P');
            assert(t.take(13)[1] == 'D');
        }
    }
}

/// What a Makefile's text declares.
pub open spec fn makefile_of(content: Seq<char>) -> MakefileView {
    parse_from(lines_s(content), 0, None, empty_view())
}

pub proof fn lemma_continue_index(lines: Seq<Seq<char>>, i: nat, acc: Seq<char>)
    ensures
        continue_from(lines, i, acc).1 >= i,
        i <= lines.len() ==> continue_from(lines, i, acc).1 <= lines.len(),
    decreases lines.len() - i,
{
    if i < lines.len() && tab_line(lines[i as int]) {
        let next = lines[i as int].drop_first();
        let joined = acc + seq![' '] + trim_start_s(next);
        if ends_with_backslash(trim_end_s(next)) {
            lemma_continue_index(lines, i + 1, trim_end_char_s(trim_end_s(joined), '\\'));
        }
    }
}

pub proof fn lemma_commands_index(lines: Seq<Seq<char>>, i: nat)
    ensures
        commands_from(lines, i).1 >= i,
        i <= lines.len() ==> commands_from(lines, i).1 <= lines.len(),
    decreases lines.len() - i,
{
    if i < lines.len() && tab_line(lines[i as int]) {
        let cmd = lines[i as int].drop_first();
        if ends_with_backslash(trim_end_s(cmd)) {
            let start = trim_end_char_s(trim_end_s(cmd), '\\');
            lemma_continue_index(lines, i + 1, start);
            lemma_commands_index(lines, continue_from(lines, i + 1, start).1);
        } else {
            lemma_commands_index(lines, i + 1);
        }
    }
}


// ---------------------------------------------------------------------------
// Reading.
// ---------------------------------------------------------------------------

pub open spec fn opt_variable_view(o: Option<Variable>) -> Option<VariableView> {
    match o {
        Some(v) => Some(v@),
        None => None,
    }
}

fn assign_op_chars(k: usize) -> (r: Vec<char>)
    requires
        k < 4,
    ensures
        r@ == assign_op(k as nat),
{
    let r = if k == 0 {
        vec![':', '=']
    } else if k == 1 {
        vec!['?', '=']
    } else if k == 2 {
        vec!['+', '=']
    } else {
        vec!['=']
    };
    assert(r@ =~= assign_op(k as nat));
    r
}

fn variable_from_exec(line: &Vec<char>, k: usize) -> (r: Option<Variable>)
    requires
        k <= 4,
    ensures
        opt_variable_view(r) == variable_from(line@, k as nat),
    decreases 4 - k,
{
    if k >= 4 {
        return None;
    }
    let op = assign_op_chars(k);
    match find(line, &op) {
        None => variable_from_exec(line, k + 1),
        Some(pos) => {
            if line.len() > 0 && line[0] == '\t' {
                return None;
            }
            proof {
                lemma_find_from_some(line@, op@, 0);
            }
            let head = sub_chars(line, 0, pos);
            let tail = sub_chars(line, pos + op.len(), line.len());
            assert(head@ =~= line@.take(pos as int));
            assert(tail@ =~= line@.skip(pos + op@.len() as int));
            let name = trim(&head);
            let value = trim(&tail);
            if name.len() == 0 || (has_char(&name, ':') && k != 0) {
                return None;
            }
            let kind = if k == 0 {
                let shell = vec!['$', '(', 's', 'h', 'e', 'l', 'l', ' '];
                assert(shell@ =~= shell_call());
                if find(&value, &shell).is_some() {
                    AssignmentType::ShellExecution
                } else {
                    AssignmentType::Simple
                }
            } else if k == 1 {
                AssignmentType::Conditional
            } else if k == 2 {
                AssignmentType::Append
            } else {
                AssignmentType::Recursive
            };
            Some(
                Variable {
                    name: string_of(name.as_slice()),
                    value: string_of(value.as_slice()),
                    assignment_type: kind,
                },
            )
        },
    }
}

fn phony_list_exec(t: &Vec<char>) -> (r: Option<Vec<String>>)
    ensures
        match r {
            Some(ws) => phony_list(t@) == Some(string_views(ws@)),
            None => phony_list(t@) is None,
        },
{
    let prefix = vec!['.', 'P', 'H', 'O', 'N', 'Y', ':'];
    assert(prefix@ =~= phony_prefix());
    if starts_with(t, &prefix) {
        let rest = sub_chars(t, 7, t.len());
        assert(rest@ =~= t@.skip(7));
        Some(split_whitespace(&rest))
    } else {
        None
    }
}

fn default_goal_exec(t: &Vec<char>) -> (r: Option<String>)
    ensures
        opt_view(r) == default_goal_of(t@),
{
    let prefix = vec!['.', 'D', 'E', 'F', 'A', 'U', 'L', 'T', '_', 'G', 'O', 'A', 'L'];
    assert(prefix@ =~= default_goal_prefix());
    if !starts_with(t, &prefix) {
        return None;
    }
    let n = t.len();
    let colon_eq = vec![':', '='];
    let eq = vec!['='];
    assert(colon_eq@ =~= seq![':', '=']);
    assert(eq@ =~= seq!['=']);
    match find(t, &colon_eq) {
        Some(p) => {
            proof {
                lemma_find_from_some(t@, colon_eq@, 0);
            }
            let rest = sub_chars(t, p + 2, t.len());
            assert(rest@ =~= t@.skip(p + 2int));
            let g = trim(&rest);
            Some(string_of(g.as_slice()))
        },
        None => match find(t, &eq) {
            Some(p) => {
                proof {
                    lemma_find_from_some(t@, eq@, 0);
                }
                let rest = sub_chars(t, p + 1, t.len());
                assert(rest@ =~= t@.skip(p + 1int));
                let g = trim(&rest);
                Some(string_of(g.as_slice()))
            },
            None => None,
        },
    }
}

fn insert_phony(set: &mut Vec<String>, names: Vec<String>)
    ensures
        string_views(final(set)@) == insert_names(string_views(old(set)@), string_views(names@)),
{
    let mut i: usize = 0;
    assert(string_views(names@).skip(0) =~= string_views(names@));
    while i < names.len()
        invariant
            i <= names.len(),
            insert_names(string_views(old(set)@), string_views(names@)) == insert_names(
                string_views(set@),
                string_views(names@).skip(i as int),
            ),
        decreases names.len() - i,
    {
        let x = names[i].clone();
        let ghost before = string_views(set@);
        let ghost rest = string_views(names@).skip(i as int);
        assert(rest[0] == x@);
        assert(rest.drop_first() =~= string_views(names@).skip(i + 1));
        if !contains_string(set, x.as_str()) {
            set.push(x);
            assert(string_views(set@) =~= before.push(x@));
        }
        i = i + 1;
    }
    assert(string_views(names@).skip(i as int) =~= Seq::<Seq<char>>::empty());
}

fn is_tab_line(l: &Vec<char>) -> (r: bool)
    ensures
        r == tab_line(l@),
{
    l.len() > 0 && l[0] == '\t'
}

fn continue_command(lines: &Vec<Vec<char>>, i: usize, acc: Vec<char>) -> (r: (Vec<char>, usize))
    requires
        i <= lines.len(),
    ensures
        (r.0@, r.1 as nat) == continue_from(views(lines@), i as nat, acc@),
    decreases lines.len() - i,
{
    let ghost ls = views(lines@);
    if i < lines.len() && is_tab_line(&lines[i]) {
        assert(ls[i as int] == lines@[i as int]@);
        let line = &lines[i];
        let next = sub_chars(line, 1, line.len());
        assert(next@ =~= ls[i as int].drop_first());
        let mut joined = acc;
        joined.push(' ');
        let lead = trim_start(&next);
        crate::text::push_all(&mut joined, lead.as_slice());
        assert(joined@ =~= acc@ + seq![' '] + trim_start_s(next@));
        let tail = trim_end(&next);
        if ends_with_char(&tail, '\\') {
            let te = trim_end(&joined);
            let start = trim_end_char(&te, '\\');
            continue_command(lines, i + 1, start)
        } else {
            (joined, i + 1)
        }
    } else {
        proof {
            if i < lines.len() {
                assert(ls[i as int] == lines@[i as int]@);
            }
        }
        (acc, i)
    }
}

fn parse_commands(lines: &Vec<Vec<char>>, i: usize) -> (r: (Vec<String>, usize))
    requires
        i <= lines.len(),
    ensures
        (string_views(r.0@), r.1 as nat) == commands_from(views(lines@), i as nat),
    decreases lines.len() - i,
{
    let ghost ls = views(lines@);
    if i < lines.len() && is_tab_line(&lines[i]) {
        assert(ls[i as int] == lines@[i as int]@);
        let line = &lines[i];
        let cmd = sub_chars(line, 1, line.len());
        assert(cmd@ =~= ls[i as int].drop_first());
        let te = trim_end(&cmd);
        if ends_with_char(&te, '\\') {
            let start = trim_end_char(&te, '\\');
            let (joined, j) = continue_command(lines, i + 1, start);
            proof {
                lemma_continue_index(ls, (i + 1) as nat, start@);
            }
            let (rest, k) = parse_commands(lines, j);
            let mut out: Vec<String> = Vec::new();
            out.push(string_of(joined.as_slice()));
            let ghost first = string_views(out@);
            assert(first =~= seq![joined@]);
            let mut rest = rest;
            out.append(&mut rest);
            assert(string_views(out@) =~= first + commands_from(ls, j as nat).0);
            (out, k)
        } else {
            let (rest, k) = parse_commands(lines, i + 1);
            let mut out: Vec<String> = Vec::new();
            out.push(string_of(cmd.as_slice()));
            let ghost first = string_views(out@);
            assert(first =~= seq![cmd@]);
            let mut rest = rest;
            out.append(&mut rest);
            assert(string_views(out@) =~= first + commands_from(ls, (i + 1) as nat).0);
            (out, k)
        }
    } else {
        proof {
            if i < lines.len() {
                assert(ls[i as int] == lines@[i as int]@);
            }
        }
        (Vec::new(), i)
    }
}

fn parse_target(lines: &Vec<Vec<char>>, i: usize, comment: Option<String>) -> (r: (
    Option<Target>,
    usize,
))
    requires
        i < lines.len(),
    ensures
        match target_at(views(lines@), i as nat, opt_view(comment)) {
            TargetStep::Found(tv, j) => r.0 matches Some(t) && t@ == tv && r.1 == j,
            TargetStep::Skipped(j) => r.0 is None && r.1 == j,
        },
{
    let ghost ls = views(lines@);
    assert(ls[i as int] == lines@[i as int]@);
    let line = &lines[i];
    let t = trim(line);
    if is_tab_line(line) {
        return (None, i);
    }
    let colon = vec![':'];
    assert(colon@ =~= seq![':']);
    let pos = match find(&t, &colon) {
        Some(p) => p,
        None => {
            return (None, i);
        },
    };
    proof {
        lemma_find_from_some(t@, colon@, 0);
    }
    let head = sub_chars(&t, 0, pos);
    assert(head@ =~= t@.take(pos as int));
    let name = trim(&head);
    let phony = vec!['.', 'P', 'H', 'O', 'N', 'Y'];
    assert(phony@ =~= phony_name());
    if name.len() == 0 || (name[0] == '.' && !chars_eq(&name, &phony)) {
        return (None, i);
    }
    let dep_part = sub_chars(&t, pos + 1, t.len());
    assert(dep_part@ =~= t@.skip(pos + 1int));
    let dependencies = split_whitespace(&dep_part);
    let (commands, j) = parse_commands(lines, i + 1);
    let target = Target {
        name: string_of(name.as_slice()),
        dependencies,
        commands,
        comment,
        is_phony: false,
    };
    (Some(target), j)
}

/// Reads a Makefile.
pub struct MakefileParser {
    content: String,
}

impl MakefileParser {
    pub closed spec fn content_view(&self) -> Seq<char> {
        self.content@
    }

    pub fn new(content: String) -> (r: MakefileParser)
        ensures
            r.content_view() == content@,
    {
        MakefileParser { content }
    }

    /// Reads every declaration of the content. Reading never fails: lines
    /// it does not understand are passed over.
    pub fn parse(&mut self) -> (r: Result<MakefileAst, String>)
        ensures
            final(self).content_view() == old(self).content_view(),
            r matches Ok(ast) && ast@ == makefile_of(old(self).content_view()),
    {
        let text = chars_of(self.content.as_str());
        let ls = lines(&text);
        let ghost lv = views(ls@);
        let mut variables: Vec<Variable> = Vec::new();
        let mut targets: Vec<Target> = Vec::new();
        let mut phony_targets: Vec<String> = Vec::new();
        let mut default_goal: Option<String> = None;
        let mut last_comment: Option<String> = None;
        let mut i: usize = 0;
        assert(variables@.map_values(|v: Variable| v@) =~= Seq::<VariableView>::empty());
        assert(targets@.map_values(|t: Target| t@) =~= Seq::<TargetView>::empty());
        assert(string_views(phony_targets@) =~= Seq::<Seq<char>>::empty());
        while i < ls.len()
            invariant
                lv == views(ls@),
                lv == lines_s(self.content_view()),
                self.content_view() == old(self).content_view(),
                parse_from(
                    lv,
                    i as nat,
                    opt_view(last_comment),
                    MakefileView {
                        variables: variables@.map_values(|v: Variable| v@),
                        targets: targets@.map_values(|t: Target| t@),
                        phony_targets: string_views(phony_targets@),
                        default_goal: opt_view(default_goal),
                    },
                ) == makefile_of(self.content_view()),
            decreases ls.len() + 1 - i,
        {
            let ghost acc = MakefileView {
                variables: variables@.map_values(|v: Variable| v@),
                targets: targets@.map_values(|t: Target| t@),
                phony_targets: string_views(phony_targets@),
                default_goal: opt_view(default_goal),
            };
            let ghost c0 = opt_view(last_comment);
            assert(lv[i as int] == ls@[i as int]@);
            let line = &ls[i];
            let t = trim(line);
            if t.len() == 0 {
                last_comment = None;
                i = i + 1;
                continue;
            }
            if t[0] == '#' {
                let body = sub_chars(&t, 1, t.len());
                assert(body@ =~= t@.drop_first());
                let c = trim(&body);
                last_comment = Some(string_of(c.as_slice()));
                i = i + 1;
                continue;
            }
            match phony_list_exec(&t) {
                Some(names) => {
                    insert_phony(&mut phony_targets, names);
                    last_comment = None;
                    i = i + 1;
                    continue;
                },
                None => {},
            }
            match default_goal_exec(&t) {
                Some(g) => {
                    default_goal = Some(g);
                    last_comment = None;
                    i = i + 1;
                    continue;
                },
                None => {},
            }
            match variable_from_exec(line, 0) {
                Some(v) => {
                    let ghost vv = v@;
                    variables.push(v);
                    assert(variables@.map_values(|v: Variable| v@) =~= acc.variables.push(vv));
                    last_comment = None;
                    i = i + 1;
                    continue;
                },
                None => {},
            }
            if has_char(&t, ':') && t[0] != '\t' {
                let (found, j) = parse_target(&ls, i, last_comment.clone());
                proof {
                    lemma_commands_index(lv, (i + 1) as nat);
                }
                match found {
                    Some(target) => {
                        let ghost tv = target@;
                        targets.push(target);
                        assert(targets@.map_values(|t: Target| t@) =~= acc.targets.push(tv));
                        last_comment = None;
                        i = j;
                        continue;
                    },
                    None => {
                        assert(j <= i + 1);
                        assert(target_at(lv, i as nat, c0) == TargetStep::Skipped(j as nat));
                        assert(parse_from(lv, i as nat, c0, acc) == parse_from(lv, (j + 1) as nat, None, acc));
                        last_comment = None;
                        i = if j < ls.len() {
                            j + 1
                        } else {
                            j
                        };
                        continue;
                    },
                }
            }
            last_comment = None;
            i = i + 1;
        }
        let ast = MakefileAst { variables, targets, phony_targets, default_goal };
        Ok(ast)
    }
}


pub proof fn lemma_insert_names_no_dup(s: Seq<Seq<char>>, xs: Seq<Seq<char>>)
    requires
        s.no_duplicates(),
    ensures
        insert_names(s, xs).no_duplicates(),
    decreases xs.len(),
{
    if xs.len() > 0 {
        lemma_insert_name(s, xs[0]);
        lemma_insert_names_no_dup(insert_name(s, xs[0]), xs.drop_first());
    }
}

pub proof fn lemma_parse_from_phony(
    lines: Seq<Seq<char>>,
    i: nat,
    comment: Option<Seq<char>>,
    acc: MakefileView,
)
    requires
        acc.phony_targets.no_duplicates(),
    ensures
        parse_from(lines, i, comment, acc).phony_targets.no_duplicates(),
    decreases lines.len() + 1 - i,
{
    if i < lines.len() {
        let line = lines[i as int];
        let t = trim_s(line);
        if t.len() == 0 {
            lemma_parse_from_phony(lines, i + 1, None, acc);
        } else if t[0] == '#' {
            lemma_parse_from_phony(lines, i + 1, Some(trim_s(t.drop_first())), acc);
        } else if phony_list(t) is Some {
            lemma_insert_names_no_dup(acc.phony_targets, phony_list(t).unwrap());
            lemma_parse_from_phony(
                lines,
                i + 1,
                None,
                MakefileView {
                    phony_targets: insert_names(acc.phony_targets, phony_list(t).unwrap()),
                    ..acc
                },
            );
        } else if default_goal_of(t) is Some {
            lemma_parse_from_phony(lines, i + 1, None, MakefileView { default_goal: default_goal_of(t), ..acc });
        } else if variable_of(line) is Some {
            lemma_parse_from_phony(
                lines,
                i + 1,
                None,
                MakefileView { variables: acc.variables.push(variable_of(line).unwrap()), ..acc },
            );
        } else if t.contains(':') && t[0] != '\t' {
            match target_at(lines, i, comment) {
                TargetStep::Found(tv, j) => {
                    lemma_commands_index(lines, i + 1);
                    if j > i {
                        lemma_parse_from_phony(lines, j, None, MakefileView { targets: acc.targets.push(tv), ..acc });
                    }
                },
                TargetStep::Skipped(j) => {
                    if j <= i + 1 {
                        lemma_parse_from_phony(lines, j + 1, None, acc);
                    }
                },
            }
        } else {
            lemma_parse_from_phony(lines, i + 1, None, acc);
        }
    }
}

/// Each name `.PHONY` declares is listed once, however often it is declared.
pub proof fn phony_names_are_listed_once(content: Seq<char>)
    ensures
        makefile_of(content).phony_targets.no_duplicates(),
{
    lemma_parse_from_phony(lines_s(content), 0, None, empty_view());
}

} // verus!
