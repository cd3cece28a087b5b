//! A task as the executor runs it, and how its file lists are resolved.

use vstd::prelude::*;
use sha2::Digest;
use crate::paths::{is_absolute, is_absolute_s, join, join_s};
use crate::makefile::{MakefileAst, TargetView};
use crate::text::{chars_of, push_str, string_of, string_views, sub_chars, trim, trim_s};

verus! {

/// A task ready to run.
#[derive(Debug, Clone)]
pub struct Task {
    pub name: String,
    /// Tasks that must finish first.
    pub task_deps: Vec<String>,
    /// Input files, resolved to paths.
    pub file_deps: Vec<String>,
    /// Output files, resolved to paths.
    pub output_deps: Vec<String>,
    /// Environment variables for the task's process, in order, each name
    /// once.
    pub envs: Vec<(String, String)>,
    /// The script the task runs.
    pub action: String,
    /// The first eight hex digits of the SHA-256 of `action`.
    pub hash: String,
}

pub struct TaskView {
    pub name: Seq<char>,
    pub task_deps: Seq<Seq<char>>,
    pub file_deps: Seq<Seq<char>>,
    pub output_deps: Seq<Seq<char>>,
    pub envs: Seq<(Seq<char>, Seq<char>)>,
    pub action: Seq<char>,
    pub hash: Seq<char>,
}

pub open spec fn env_views(v: Seq<(String, String)>) -> Seq<(Seq<char>, Seq<char>)> {
    v.map_values(|e: (String, String)| (e.0@, e.1@))
}

/// No variable is named twice.
pub open spec fn unique_names(envs: Seq<(Seq<char>, Seq<char>)>) -> bool {
    forall|i: int, j: int| 0 <= i < j < envs.len() ==> #[trigger] envs[i].0 != #[trigger] envs[j].0
}

impl View for Task {
    type V = TaskView;

    open spec fn view(&self) -> TaskView {
        TaskView {
            name: self.name@,
            task_deps: string_views(self.task_deps@),
            file_deps: string_views(self.file_deps@),
            output_deps: string_views(self.output_deps@),
            envs: env_views(self.envs@),
            action: self.action@,
            hash: self.hash@,
        }
    }
}

/// What the SHA-256 hash function gives for `data`.
pub uninterp spec fn sha256_digest(data: Seq<u8>) -> Seq<u8>;

/// Calls `sha2::Sha256::digest`: the 32-byte SHA-256 hash of `data`.
#[verifier::external_body]
fn sha256(data: &[u8]) -> (r: Vec<u8>)
    ensures
        r@ == sha256_digest(data@),
        r@.len() == 32,
{
    sha2::Sha256::digest(data).to_vec()
}

/// The lowercase hex digit for `d < 16`.
pub open spec fn hex_digit(d: u8) -> char {
    if d < 10 {
        ('0' as u8 + d) as char
    } else {
        ('a' as u8 + (d - 10)) as char
    }
}

/// Bytes as lowercase hex, two digits each, high half first.
pub open spec fn hex_text(bytes: Seq<u8>) -> Seq<char>
    decreases bytes.len(),
{
    if bytes.len() == 0 {
        Seq::empty()
    } else {
        seq![hex_digit(bytes[0] / 16), hex_digit(bytes[0] % 16)] + hex_text(bytes.drop_first())
    }
}

/// Calls `hex::encode`, which writes each byte as two lowercase hex digits.
#[verifier::external_body]
fn hex_encode(bytes: &[u8]) -> (r: String)
    ensures
        r@ == hex_text(bytes@),
{
    hex::encode(bytes)
}

pub proof fn lemma_hex_text_len(bytes: Seq<u8>)
    ensures
        hex_text(bytes).len() == 2 * bytes.len(),
    decreases bytes.len(),
{
    if bytes.len() > 0 {
        lemma_hex_text_len(bytes.drop_first());
    }
}

/// The hash recorded for a script: the first eight hex digits of the
/// SHA-256 of its UTF-8 text.
pub open spec fn action_hash(action: Seq<char>) -> Seq<char> {
    hex_text(sha256_digest(vstd::utf8::encode_utf8(action))).take(8)
}

pub fn calculate_hash(action: &String) -> (r: String)
    ensures
        r@ == action_hash(action@),
{
    let bytes = action.as_str().as_bytes();
    let digest = sha256(bytes);
    let text = hex_encode(digest.as_slice());
    proof {
        lemma_hex_text_len(digest@);
    }
    let cs = chars_of(text.as_str());
    let first = sub_chars(&cs, 0, 8);
    assert(first@ =~= hex_text(digest@).take(8));
    string_of(first.as_slice())
}

/// A pattern made absolute: kept if already absolute, else joined onto `cwd`.
pub open spec fn absolute_pattern(pattern: Seq<char>, cwd: Seq<char>) -> Seq<char> {
    if is_absolute_s(pattern) {
        pattern
    } else {
        join_s(cwd, pattern)
    }
}

/// The paths a list of patterns resolves to: for each pattern in turn, the
/// files it matched (`matches[k]`, missing entries counting as no match), or
/// the absolute pattern itself when it matched none.
pub open spec fn resolved_paths(
    patterns: Seq<Seq<char>>,
    cwd: Seq<char>,
    matches: Seq<Seq<Seq<char>>>,
) -> Seq<Seq<char>>
    decreases patterns.len(),
{
    if patterns.len() == 0 {
        Seq::empty()
    } else {
        let k = patterns.len() - 1;
        let found = if k < matches.len() {
            matches[k]
        } else {
            Seq::empty()
        };
        let these = if found.len() > 0 {
            found
        } else {
            seq![absolute_pattern(patterns[k], cwd)]
        };
        resolved_paths(patterns.drop_last(), cwd, matches) + these
    }
}

pub open spec fn match_views(m: Seq<Vec<String>>) -> Seq<Seq<Seq<char>>> {
    m.map_values(|v: Vec<String>| string_views(v@))
}

/// How a task spec is written: what the configuration gives for one task.
#[derive(Debug, Clone)]
pub struct TaskSpec {
    pub name: String,
    /// Tasks to run before this one.
    pub before: Vec<String>,
    /// Input file patterns.
    pub input: Vec<String>,
    /// Output file patterns.
    pub output: Vec<String>,
    pub envs: Vec<(String, String)>,
    pub action: String,
}

impl Task {
    pub fn new(
        name: String,
        task_deps: Vec<String>,
        file_deps: Vec<String>,
        output_deps: Vec<String>,
        envs: Vec<(String, String)>,
        action: String,
    ) -> (r: Task)
        requires
            unique_names(env_views(envs@)),
        ensures
            unique_names(r@.envs),
            r@.name == name@,
            r@.task_deps == string_views(task_deps@),
            r@.file_deps == string_views(file_deps@),
            r@.output_deps == string_views(output_deps@),
            r@.envs == env_views(envs@),
            r@.action == action@,
            r@.hash == action_hash(action@),
    {
        let hash = calculate_hash(&action);
        Task { name, task_deps, file_deps, output_deps, envs, action, hash }
    }

    /// The same task again, field for field.
    pub fn clone_task(&self) -> (r: Task)
        ensures
            r@ == self@,
    {
        let mut envs: Vec<(String, String)> = Vec::new();
        let mut i: usize = 0;
        while i < self.envs.len()
            invariant
                i <= self.envs.len(),
                envs@.len() == i,
                forall|k: int| 0 <= k < i ==> (#[trigger] envs@[k]).0@ == self.envs@[k].0@ && envs@[k].1@
                    == self.envs@[k].1@,
            decreases self.envs.len() - i,
        {
            envs.push((self.envs[i].0.clone(), self.envs[i].1.clone()));
            i = i + 1;
        }
        let r = Task {
            name: self.name.clone(),
            task_deps: copy_strings(&self.task_deps),
            file_deps: copy_strings(&self.file_deps),
            output_deps: copy_strings(&self.output_deps),
            envs,
            action: self.action.clone(),
            hash: self.hash.clone(),
        };
        assert(r@.envs =~= self@.envs);
        r
    }

    /// A pattern made absolute against `cwd`, as it is handed to glob
    /// matching.
    pub fn glob_pattern(pattern: &str, cwd: &str) -> (r: String)
        ensures
            r@ == absolute_pattern(pattern@, cwd@),
    {
        if is_absolute(pattern) {
            let cs = chars_of(pattern);
            string_of(cs.as_slice())
        } else {
            join(cwd, pattern)
        }
    }

    /// The file list for `patterns`, given what each pattern matched on disk.
    pub fn resolve_file_globs(patterns: &Vec<String>, cwd: &str, matches: &Vec<Vec<String>>) -> (r:
        Vec<String>)
        ensures
            string_views(r@) == resolved_paths(string_views(patterns@), cwd@, match_views(matches@)),
    {
        let ghost ps = string_views(patterns@);
        let ghost ms = match_views(matches@);
        let mut out: Vec<String> = Vec::new();
        let mut k: usize = 0;
        while k < patterns.len()
            invariant
                k <= patterns.len(),
                ps == string_views(patterns@),
                ms == match_views(matches@),
                string_views(out@) == resolved_paths(ps.take(k as int), cwd@, ms),
            decreases patterns.len() - k,
        {
            let ghost before = string_views(out@);
            assert(ps.take(k + 1).drop_last() =~= ps.take(k as int));
            assert(ps.take(k + 1)[k as int] == patterns@[k as int]@);
            if k < matches.len() && matches[k].len() > 0 {
                let found = &matches[k];
                assert(ms[k as int] == string_views(found@));
                let mut j: usize = 0;
                while j < found.len()
                    invariant
                        j <= found.len(),
                        string_views(out@) == before + string_views(found@).take(j as int),
                    decreases found.len() - j,
                {
                    let item = found[j].clone();
                    let ghost prev = string_views(out@);
                    out.push(item);
                    assert(string_views(out@) =~= prev.push(item@));
                    assert(string_views(found@).take(j + 1) =~= string_views(found@).take(j as int).push(
                        item@,
                    ));
                    j = j + 1;
                }
                assert(string_views(found@).take(j as int) =~= string_views(found@));
            } else {
                proof {
                    if k < matches.len() {
                        assert(ms[k as int] == string_views(matches@[k as int]@));
                        assert(ms[k as int].len() == 0);
                    }
                }
                let p = Task::glob_pattern(patterns[k].as_str(), cwd);
                out.push(p);
                assert(string_views(out@) =~= before + seq![p@]);
            }
            k = k + 1;
        }
        assert(ps.take(k as int) =~= ps);
        out
    }

    /// The task a spec describes, with its file patterns resolved against
    /// `cwd` (`input_matches` and `output_matches` hold what each pattern
    /// matched), the given evaluated environment, and the script trimmed.
    pub fn from_task_with_cwd(
        task_spec: &TaskSpec,
        cwd: &str,
        input_matches: &Vec<Vec<String>>,
        output_matches: &Vec<Vec<String>>,
        envs: Vec<(String, String)>,
    ) -> (r: Task)
        requires
            unique_names(env_views(envs@)),
        ensures
            unique_names(r@.envs),
            r@.name == task_spec.name@,
            r@.task_deps == string_views(task_spec.before@),
            r@.file_deps == resolved_paths(
                string_views(task_spec.input@),
                cwd@,
                match_views(input_matches@),
            ),
            r@.output_deps == resolved_paths(
                string_views(task_spec.output@),
                cwd@,
                match_views(output_matches@),
            ),
            r@.envs == env_views(envs@),
            r@.action == trim_s(task_spec.action@),
            r@.hash == action_hash(trim_s(task_spec.action@)),
    {
        let file_deps = Task::resolve_file_globs(&task_spec.input, cwd, input_matches);
        let output_deps = Task::resolve_file_globs(&task_spec.output, cwd, output_matches);
        let action_chars = chars_of(task_spec.action.as_str());
        let trimmed = trim(&action_chars);
        let action = string_of(trimmed.as_slice());
        let name = string_of(chars_of(task_spec.name.as_str()).as_slice());
        let mut before: Vec<String> = Vec::new();
        let mut i: usize = 0;
        while i < task_spec.before.len()
            invariant
                i <= task_spec.before.len(),
                string_views(before@) == string_views(task_spec.before@).take(i as int),
            decreases task_spec.before.len() - i,
        {
            let item = task_spec.before[i].clone();
            let ghost prev = string_views(before@);
            before.push(item);
            assert(string_views(before@) =~= prev.push(item@));
            assert(string_views(task_spec.before@).take(i + 1) =~= string_views(task_spec.before@).take(
                i as int,
            ).push(item@));
            i = i + 1;
        }
        assert(string_views(task_spec.before@).take(i as int) =~= string_views(task_spec.before@));
        Task::new(name, before, file_deps, output_deps, envs, action)
    }
}


fn copy_strings(v: &Vec<String>) -> (r: Vec<String>)
    ensures
        string_views(r@) == string_views(v@),
{
    let mut out: Vec<String> = Vec::new();
    let mut i: usize = 0;
    while i < v.len()
        invariant
            i <= v.len(),
            out@.len() == i,
            forall|k: int| 0 <= k < i ==> (#[trigger] out@[k])@ == v@[k]@,
        decreases v.len() - i,
    {
        out.push(v[i].clone());
        i = i + 1;
    }
    assert(string_views(out@) =~= string_views(v@));
    out
}

pub open spec fn pair_views(v: Seq<(String, String)>) -> Seq<(Seq<char>, Seq<char>)> {
    v.map_values(|p: (String, String)| (p.0@, p.1@))
}

/// The environment a task's process gets on top of otto's own: the task's
/// variables in order, then `OTTO_TASK`, `OTTO_TASK_DIR`, `OTTO_WORKSPACE`,
/// `OTTO_TASKS_DIR` and `OTTO_USER`, later entries overriding earlier ones.
pub open spec fn command_env_of(
    envs: Seq<(Seq<char>, Seq<char>)>,
    name: Seq<char>,
    task_dir: Seq<char>,
    root: Seq<char>,
    tasks_dir: Seq<char>,
    user: Seq<char>,
) -> Seq<(Seq<char>, Seq<char>)> {
    envs + seq![
        ("OTTO_TASK"@, name),
        ("OTTO_TASK_DIR"@, task_dir),
        ("OTTO_WORKSPACE"@, root),
        ("OTTO_TASKS_DIR"@, tasks_dir),
        ("OTTO_USER"@, user),
    ]
}

fn owned_str(s: &str) -> (r: String)
    ensures
        r@ == s@,
{
    string_of(chars_of(s).as_slice())
}

impl Task {
    /// The variables set for the task's process, in the order they are
    /// applied.
    pub fn command_env(&self, task_dir: &str, root: &str, tasks_dir: &str, user: &str) -> (r: Vec<(String, String)>)
        ensures
            pair_views(r@) == command_env_of(pair_views(self.envs@), self.name@, task_dir@, root@, tasks_dir@, user@),
    {
        let mut r: Vec<(String, String)> = Vec::new();
        let mut i: usize = 0;
        while i < self.envs.len()
            invariant
                i <= self.envs@.len(),
                pair_views(r@) == pair_views(self.envs@).take(i as int),
            decreases self.envs@.len() - i,
        {
            let k = owned_str(self.envs[i].0.as_str());
            let v = owned_str(self.envs[i].1.as_str());
            r.push((k, v));
            assert(pair_views(self.envs@).take(i + 1) =~= pair_views(self.envs@).take(i as int).push(
                (self.envs@[i as int].0@, self.envs@[i as int].1@),
            ));
            assert(pair_views(r@) =~= pair_views(self.envs@).take(i as int).push(
                (self.envs@[i as int].0@, self.envs@[i as int].1@),
            ));
            i = i + 1;
        }
        assert(pair_views(self.envs@).take(i as int) =~= pair_views(self.envs@));
        let ghost base = r@;
        r.push((owned_str("OTTO_TASK"), owned_str(self.name.as_str())));
        r.push((owned_str("OTTO_TASK_DIR"), owned_str(task_dir)));
        r.push((owned_str("OTTO_WORKSPACE"), owned_str(root)));
        r.push((owned_str("OTTO_TASKS_DIR"), owned_str(tasks_dir)));
        r.push((owned_str("OTTO_USER"), owned_str(user)));
        assert(pair_views(r@) =~= command_env_of(pair_views(self.envs@), self.name@, task_dir@, root@, tasks_dir@, user@));
        r
    }
}

/// Lines joined with a newline between each two.
pub open spec fn lines_joined(lines: Seq<Seq<char>>) -> Seq<char>
    decreases lines.len(),
{
    if lines.len() == 0 {
        Seq::empty()
    } else if lines.len() == 1 {
        lines[0]
    } else {
        lines_joined(lines.drop_last()) + seq!['\n'] + lines.last()
    }
}

/// `lines` joined with a newline between each two.
pub fn join_lines(lines: &Vec<String>) -> (r: String)
    ensures
        r@ == lines_joined(string_views(lines@)),
{
    let ghost lv = string_views(lines@);
    let mut out: Vec<char> = Vec::new();
    let mut i: usize = 0;
    while i < lines.len()
        invariant
            i <= lines.len(),
            lv == string_views(lines@),
            out@ == lines_joined(lv.take(i as int)),
        decreases lines.len() - i,
    {
        let ghost before = out@;
        if i > 0 {
            out.push('\n');
        }
        push_str(&mut out, lines[i].as_str());
        proof {
            let t = lv.take(i + 1);
            assert(t.drop_last() =~= lv.take(i as int));
            assert(t.last() == lines@[i as int]@);
            if i == 0 {
                assert(out@ =~= t[0]);
            } else {
                assert(out@ =~= before + seq!['\n'] + t.last());
            }
        }
        i = i + 1;
    }
    assert(lv.take(i as int) =~= lv);
    string_of(out.as_slice())
}

/// The task a Makefile target becomes: its prerequisites as dependencies,
/// its recipe lines joined as the script, no files and no environment.
pub open spec fn target_task(t: TargetView) -> TaskView {
    TaskView {
        name: t.name,
        task_deps: t.dependencies,
        file_deps: Seq::empty(),
        output_deps: Seq::empty(),
        envs: Seq::empty(),
        action: lines_joined(t.commands),
        hash: action_hash(lines_joined(t.commands)),
    }
}

/// One task per target of the Makefile, in the targets' order.
pub fn tasks_from(ast: &MakefileAst) -> (r: Vec<Task>)
    ensures
        r.len() == ast@.targets.len(),
        forall|i: int| 0 <= i < r.len() ==> #[trigger] r@[i]@ == target_task(ast@.targets[i]),
{
    let mut out: Vec<Task> = Vec::new();
    let mut i: usize = 0;
    while i < ast.targets.len()
        invariant
            i <= ast.targets.len(),
            out.len() == i,
            forall|k: int| 0 <= k < i ==> #[trigger] out@[k]@ == target_task(ast@.targets[k]),
        decreases ast.targets.len() - i,
    {
        let t = &ast.targets[i];
        assert(ast@.targets[i as int] == t@);
        let action = join_lines(&t.commands);
        let envs: Vec<(String, String)> = Vec::new();
        assert(env_views(envs@) =~= Seq::<(Seq<char>, Seq<char>)>::empty());
        let file_deps: Vec<String> = Vec::new();
        let output_deps: Vec<String> = Vec::new();
        assert(string_views(file_deps@) =~= Seq::<Seq<char>>::empty());
        assert(string_views(output_deps@) =~= Seq::<Seq<char>>::empty());
        let task = Task::new(t.name.clone(), copy_strings(&t.dependencies), file_deps, output_deps, envs, action);
        assert(task@ =~= target_task(t@));
        out.push(task);
        i = i + 1;
    }
    out
}

} // verus!
