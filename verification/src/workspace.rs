//! Where a run keeps its files: `~/.otto/otto-<hash>/` per project, a
//! `.cache` beside one directory per run, and one directory per task.

use vstd::prelude::*;
use crate::fmt::{dec, push_dec};
use crate::paths::{is_absolute_s, join, join_s};
use crate::schema::RunStatus;
use crate::task::{action_hash, calculate_hash};
use crate::text::{
    chars_of, find_from, find_s, lemma_find_char_at, lemma_find_char_none, occurs_at, push_all, push_str,
    split_char, split_on, string_of, views,
};

verus! {

/// The facts recorded about one invocation.
#[derive(Debug, Clone)]
pub struct ExecutionContext {
    pub prog: String,
    pub cwd: String,
    pub user: String,
    pub timestamp: u64,
    pub hash: String,
    pub ottofile: Option<String>,
    pub args: Vec<String>,
}

impl ExecutionContext {
    /// The context of an invocation made from `cwd` (`/` when it could not
    /// be read) by `user` (`unknown` when unset), at `timestamp` seconds
    /// since the Unix epoch.
    pub fn from_environment(cwd: Option<String>, user: Option<String>, timestamp: u64) -> (r:
        ExecutionContext)
        ensures
            r.prog@ == "otto"@,
            r.cwd@ == (match cwd {
                Some(c) => c@,
                None => "/"@,
            }),
            r.user@ == (match user {
                Some(u) => u@,
                None => "unknown"@,
            }),
            r.timestamp == timestamp,
            r.hash@ == "test"@,
            r.ottofile is None,
            r.args@.len() == 1,
            r.args@[0]@ == "otto"@,
    {
        let cwd = match cwd {
            Some(c) => c,
            None => String::from_str("/"),
        };
        let user = match user {
            Some(u) => u,
            None => String::from_str("unknown"),
        };
        let mut args: Vec<String> = Vec::new();
        args.push(String::from_str("otto"));
        ExecutionContext {
            prog: String::from_str("otto"),
            cwd,
            user,
            timestamp,
            hash: String::from_str("test"),
            ottofile: None,
            args,
        }
    }
}

pub open spec fn project_dir(home: Seq<char>, hash: Seq<char>) -> Seq<char> {
    join_s(home, "otto-"@ + hash)
}

pub open spec fn task_dir_of(run: Seq<char>, name: Seq<char>) -> Seq<char> {
    join_s(join_s(run, "tasks"@), name)
}

/// A path's segments: the pieces between `/`, without empty ones and `.`.
pub open spec fn segments(p: Seq<char>) -> Seq<Seq<char>> {
    split_on(p, '/').filter(|s: Seq<char>| s.len() > 0 && s != seq!['.'])
}

/// Segments joined with `/`.
pub open spec fn join_segments(segs: Seq<Seq<char>>) -> Seq<char>
    decreases segs.len(),
{
    if segs.len() == 0 {
        Seq::empty()
    } else if segs.len() == 1 {
        segs[0]
    } else {
        join_segments(segs.drop_last()) + seq!['/'] + segs.last()
    }
}

/// Whether `path` lies under `root`: both absolute or both relative, and
/// the root's segments begin the path's.
pub open spec fn under_root(root: Seq<char>, path: Seq<char>) -> bool {
    is_absolute_s(root) == is_absolute_s(path) && segments(root).len() <= segments(path).len()
        && segments(path).take(segments(root).len() as int) == segments(root)
}

/// `t` holds no `/`.
pub open spec fn no_slash(t: Seq<char>) -> bool {
    forall|m: int| 0 <= m < t.len() ==> t[m] != '/'
}

/// A segment as `segments` yields one: not empty, not `.`, no `/`.
pub open spec fn clean_segment(t: Seq<char>) -> bool {
    t.len() > 0 && t != seq!['.'] && no_slash(t)
}

proof fn lemma_find_none_absent(s: Seq<char>, c: char, j: nat)
    requires
        find_from(s, seq![c], j) is None,
    ensures
        forall|m: int| j <= m < s.len() ==> s[m] != c,
    decreases s.len() - j,
{
    if j + 1 <= s.len() {
        assert(s.subrange(j as int, j as int + 1) =~= seq![s[j as int]]);
        if s[j as int] == c {
            assert(occurs_at(s, seq![c], j as int));
        }
        lemma_find_none_absent(s, c, j + 1);
    }
}

proof fn lemma_find_some_first(s: Seq<char>, c: char, j: nat)
    ensures
        find_from(s, seq![c], j) matches Some(k) ==> k < s.len() && s[k as int] == c && forall|m: int|
            j <= m < k ==> s[m] != c,
    decreases s.len() - j,
{
    if j + 1 <= s.len() {
        assert(s.subrange(j as int, j as int + 1) =~= seq![s[j as int]]);
        if s[j as int] == c {
            assert(occurs_at(s, seq![c], j as int));
        } else {
            assert(seq![s[j as int]][0] != seq![c][0]);
            assert(!occurs_at(s, seq![c], j as int));
            lemma_find_some_first(s, c, j + 1);
        }
    }
}

/// The pieces `split_on` cuts at `/` hold no `/`.
proof fn lemma_split_pieces(s: Seq<char>)
    ensures
        forall|a: int| 0 <= a < split_on(s, '/').len() ==> no_slash(#[trigger] split_on(s, '/')[a]),
    decreases s.len(),
{
    if s.len() > 0 {
        lemma_find_some_first(s, '/', 0);
        match find_s(s, seq!['/']) {
            None => {
                lemma_find_none_absent(s, '/', 0);
            },
            Some(i) => {
                let rest = split_on(s.skip(i as int + 1), '/');
                lemma_split_pieces(s.skip(i as int + 1));
                assert forall|a: int| 0 <= a < split_on(s, '/').len() implies no_slash(
                    #[trigger] split_on(s, '/')[a],
                ) by {
                    if a > 0 {
                        assert((seq![s.take(i as int)] + rest)[a] == rest[a - 1]);
                    }
                }
            },
        }
    }
}

/// Every segment of a path is clean.
proof fn lemma_segments_clean(p: Seq<char>)
    ensures
        forall|a: int| 0 <= a < segments(p).len() ==> clean_segment(#[trigger] segments(p)[a]),
{
    let keep = |t: Seq<char>| t.len() > 0 && t != seq!['.'];
    let pieces = split_on(p, '/');
    lemma_split_pieces(p);
    assert forall|a: int| 0 <= a < segments(p).len() implies clean_segment(#[trigger] segments(p)[a]) by {
        let t = segments(p)[a];
        pieces.lemma_filter_pred(keep, a);
        assert(pieces.filter(keep).contains(t));
        pieces.lemma_filter_contains_rev(keep, t);
        let b = choose|b: int| 0 <= b < pieces.len() && pieces[b] == t;
        assert(no_slash(pieces[b]));
    }
}

proof fn lemma_segments_empty()
    ensures
        segments(Seq::empty()) == Seq::<Seq<char>>::empty(),
{
    reveal(Seq::filter);
    assert(split_on(Seq::empty(), '/') =~= Seq::<Seq<char>>::empty());
    assert(segments(Seq::empty()) =~= Seq::<Seq<char>>::empty());
}

/// A text with no `/` is a single piece, kept when it is clean.
proof fn lemma_segments_single(t: Seq<char>)
    requires
        no_slash(t),
    ensures
        segments(t) == seq![t].filter(|s: Seq<char>| s.len() > 0 && s != seq!['.']),
{
    reveal_with_fuel(Seq::filter, 2);
    if t.len() == 0 {
        lemma_segments_empty();
        assert(seq![t].drop_last() =~= Seq::<Seq<char>>::empty());
        assert(seq![t].filter(|s: Seq<char>| s.len() > 0 && s != seq!['.']) =~= Seq::<Seq<char>>::empty());
    } else {
        lemma_find_char_none(t, '/', 0);
        assert(split_on(t, '/') == seq![t]);
    }
}

/// The segments on both sides of a `/` follow one another.
proof fn lemma_segments_sep(x: Seq<char>, y: Seq<char>)
    ensures
        segments(x + seq!['/'] + y) == segments(x) + segments(y),
    decreases x.len(),
{
    let keep = |t: Seq<char>| t.len() > 0 && t != seq!['.'];
    let s = x + seq!['/'] + y;
    lemma_find_some_first(x, '/', 0);
    match find_s(x, seq!['/']) {
        None => {
            lemma_find_none_absent(x, '/', 0);
            lemma_find_char_at(s, '/', x.len() as int, 0);
            assert(s.take(x.len() as int) =~= x);
            assert(s.skip(x.len() as int + 1) =~= y);
            assert(split_on(s, '/') == seq![x] + split_on(y, '/'));
            Seq::filter_distributes_over_add(seq![x], split_on(y, '/'), keep);
            lemma_segments_single(x);
        },
        Some(i) => {
            let x2 = x.skip(i as int + 1);
            lemma_find_char_at(s, '/', i as int, 0);
            assert(s.take(i as int) =~= x.take(i as int));
            assert(s.skip(i as int + 1) =~= x2 + seq!['/'] + y);
            lemma_segments_sep(x2, y);
            assert(split_on(s, '/') == seq![x.take(i as int)] + split_on(x2 + seq!['/'] + y, '/'));
            assert(split_on(x, '/') == seq![x.take(i as int)] + split_on(x2, '/'));
            Seq::filter_distributes_over_add(seq![x.take(i as int)], split_on(x2 + seq!['/'] + y, '/'), keep);
            Seq::filter_distributes_over_add(seq![x.take(i as int)], split_on(x2, '/'), keep);
        },
    }
}

/// Clean segments joined with `/` split back into themselves.
proof fn lemma_segments_of_join(segs: Seq<Seq<char>>)
    requires
        forall|a: int| 0 <= a < segs.len() ==> clean_segment(#[trigger] segs[a]),
    ensures
        segments(join_segments(segs)) == segs,
        segs.len() > 0 ==> join_segments(segs).len() > 0 && join_segments(segs)[0] == segs[0][0],
    decreases segs.len(),
{
    reveal_with_fuel(Seq::filter, 2);
    if segs.len() == 0 {
        lemma_segments_empty();
    } else if segs.len() == 1 {
        assert(clean_segment(segs[0]));
        lemma_segments_single(segs[0]);
        assert(seq![segs[0]].drop_last() =~= Seq::<Seq<char>>::empty());
        assert(segs =~= seq![segs[0]]);
    } else {
        let init = segs.drop_last();
        assert(clean_segment(segs.last()));
        lemma_segments_of_join(init);
        lemma_segments_sep(join_segments(init), segs.last());
        lemma_segments_single(segs.last());
        assert(seq![segs.last()].drop_last() =~= Seq::<Seq<char>>::empty());
        assert(segs =~= init.push(segs.last()));
        assert(init[0] == segs[0]);
    }
}

/// A relative path joined onto `root` has the root's segments, then its own.
proof fn lemma_segments_join_s(root: Seq<char>, rel: Seq<char>)
    requires
        !is_absolute_s(rel),
    ensures
        segments(join_s(root, rel)) == segments(root) + segments(rel),
        is_absolute_s(join_s(root, rel)) == is_absolute_s(root),
{
    lemma_segments_empty();
    if root.len() == 0 {
        assert(join_s(root, rel) =~= rel);
        assert(segments(root) + segments(rel) =~= segments(rel));
    } else if root.last() == '/' {
        let head = root.drop_last();
        assert(root =~= head + seq!['/'] + Seq::<char>::empty());
        assert(join_s(root, rel) =~= head + seq!['/'] + rel);
        lemma_segments_sep(head, Seq::empty());
        lemma_segments_sep(head, rel);
        assert(segments(root) =~= segments(head));
        assert(join_s(root, rel)[0] == root[0]);
    } else {
        lemma_segments_sep(root, rel);
        assert(join_s(root, rel)[0] == root[0]);
    }
}

/// Joining what `relative_to_root` gives back onto the root names the same
/// place: the path's segments, absolute exactly when the path is.
pub proof fn relative_path_rejoins(root: Seq<char>, path: Seq<char>)
    requires
        under_root(root, path),
    ensures
        segments(join_s(root, join_segments(segments(path).skip(segments(root).len() as int))))
            == segments(path),
        is_absolute_s(join_s(root, join_segments(segments(path).skip(segments(root).len() as int))))
            == is_absolute_s(path),
{
    let k = segments(root).len() as int;
    let rest = segments(path).skip(k);
    let rel = join_segments(rest);
    lemma_segments_clean(path);
    assert forall|a: int| 0 <= a < rest.len() implies clean_segment(#[trigger] rest[a]) by {
        assert(rest[a] == segments(path)[a + k]);
    }
    lemma_segments_of_join(rest);
    if rest.len() > 0 {
        assert(clean_segment(rest[0]));
        assert(rest[0][0] != '/');
    }
    lemma_segments_join_s(root, rel);
    assert(segments(path).take(k) + rest =~= segments(path));
}

/// What `relative_to_root` gives for `path` under `root`: the path's
/// segments past the root's, joined with `/`, or the refusal.
pub open spec fn relative_of(root: Seq<char>, path: Seq<char>) -> Result<Seq<char>, Seq<char>> {
    if under_root(root, path) {
        Ok(join_segments(segments(path).skip(segments(root).len() as int)))
    } else {
        Err(not_relative_message(path, root))
    }
}

/// `relative_to_root` succeeds exactly for the paths `is_in_project`
/// accepts, its refusal names the path and the root, and what it gives,
/// joined back onto the root, is the same path, compared segment by
/// segment and absolute exactly when the path is.
pub proof fn relative_to_root_round_trip(root: Seq<char>, path: Seq<char>)
    ensures
        relative_of(root, path) is Ok <==> under_root(root, path),
        relative_of(root, path) matches Err(m) ==> m == not_relative_message(path, root),
        relative_of(root, path) matches Ok(rel) ==> segments(join_s(root, rel)) == segments(path)
            && is_absolute_s(join_s(root, rel)) == is_absolute_s(path),
{
    if under_root(root, path) {
        relative_path_rejoins(root, path);
    }
}

/// A relative path joined onto the root lies under it, and
/// `relative_to_root` gives back the path's own segments.
pub proof fn joined_path_is_relative_again(root: Seq<char>, rel: Seq<char>)
    requires
        !is_absolute_s(rel),
    ensures
        under_root(root, join_s(root, rel)),
        segments(join_segments(segments(join_s(root, rel)).skip(segments(root).len() as int)))
            == segments(rel),
{
    let k = segments(root).len() as int;
    lemma_segments_join_s(root, rel);
    assert(segments(join_s(root, rel)).take(k) =~= segments(root));
    assert(segments(join_s(root, rel)).skip(k) =~= segments(rel));
    lemma_segments_clean(rel);
    lemma_segments_of_join(segments(rel));
}

pub open spec fn not_relative_message(path: Seq<char>, root: Seq<char>) -> Seq<char> {
    "Path "@ + path + " is not relative to root "@ + root + ": prefix not found"@
}

/// A project's storage layout and this run's place in it.
pub struct Workspace {
    home: String,
    root: String,
    hash: String,
    time: u64,
    project: String,
    cache: String,
    run: String,
    db_run_id: Option<i64>,
}

/// A run's end, as the run history stores it.
pub struct RunCompletion {
    pub timestamp: u64,
    pub status: RunStatus,
    pub size_bytes: Option<u64>,
}

pub struct WorkspaceView {
    pub home: Seq<char>,
    pub root: Seq<char>,
    pub hash: Seq<char>,
    pub time: nat,
    pub project: Seq<char>,
    pub cache: Seq<char>,
    pub run: Seq<char>,
    pub db_run_id: Option<i64>,
}

impl View for Workspace {
    type V = WorkspaceView;

    closed spec fn view(&self) -> WorkspaceView {
        WorkspaceView {
            home: self.home@,
            root: self.root@,
            hash: self.hash@,
            time: self.time as nat,
            project: self.project@,
            cache: self.cache@,
            run: self.run@,
            db_run_id: self.db_run_id,
        }
    }
}

/// The layout derived from a home directory, a project hash and a run time:
/// `<home>/.otto/otto-<hash>`, its `.cache`, and `<time>` for the run.
pub open spec fn layout_wf(w: WorkspaceView) -> bool {
    &&& w.project == project_dir(w.home, w.hash)
    &&& w.cache == join_s(w.project, ".cache"@)
    &&& w.run == join_s(w.project, dec(w.time))
}

fn join_with_suffix(base: &str, first: &str, middle: &str, last: &str) -> (r: String)
    ensures
        r@ == join_s(base@, first@ + middle@ + last@),
{
    let mut name: Vec<char> = Vec::new();
    push_str(&mut name, first);
    push_str(&mut name, middle);
    push_str(&mut name, last);
    let comp = string_of(name.as_slice());
    assert(comp@ =~= first@ + middle@ + last@);
    join(base, comp.as_str())
}

impl Workspace {
    /// The hash that names a project's storage: the first eight hex digits
    /// of the SHA-256 of its root path.
    pub fn project_hash(root: &str) -> (r: String)
        ensures
            r@ == action_hash(root@),
    {
        let owned = string_of(chars_of(root).as_slice());
        calculate_hash(&owned)
    }

    /// The workspace for `root` under the home directory `home_dir`, for the
    /// run started at `time`.
    pub fn from_home(home_dir: &str, root: String, hash: String, time: u64) -> (r: Workspace)
        ensures
            layout_wf(r@),
            r@.home == join_s(home_dir@, ".otto"@),
            r@.root == root@,
            r@.hash == hash@,
            r@.time == time,
            r@.db_run_id is None,
    {
        let home = join(home_dir, ".otto");
        let project = join_with_suffix(home.as_str(), "otto-", hash.as_str(), "");
        assert("otto-"@ + hash@ + ""@ =~= "otto-"@ + hash@) by {
            reveal_strlit("");
        }
        let cache = join(project.as_str(), ".cache");
        let mut digits: Vec<char> = Vec::new();
        push_dec(&mut digits, time);
        let stamp = string_of(digits.as_slice());
        assert(stamp@ =~= dec(time as nat));
        let run = join(project.as_str(), stamp.as_str());
        Workspace { home, root, hash, time, project, cache, run, db_run_id: None }
    }

    /// Where the cached copy of a task's script with content hash `hash`
    /// lives.
    pub fn script_cache(&self, task: &str, hash: &str) -> (r: String)
        ensures
            r@ == join_s(join_s(self@.cache, task@), hash@),
    {
        let dir = join(self.cache.as_str(), task);
        join(dir.as_str(), hash)
    }

    /// A task's directory in this run.
    pub fn task(&self, name: &str) -> (r: String)
        ensures
            r@ == task_dir_of(self@.run, name@),
    {
        let tasks = join(self.run.as_str(), "tasks");
        join(tasks.as_str(), name)
    }

    /// A task's script: `script.py` or `script.sh` in its directory.
    pub fn script(&self, task: &str, is_python: bool) -> (r: String)
        ensures
            r@ == join_s(
                task_dir_of(self@.run, task@),
                if is_python {
                    "script.py"@
                } else {
                    "script.sh"@
                },
            ),
    {
        let dir = self.task(task);
        if is_python {
            join(dir.as_str(), "script.py")
        } else {
            join(dir.as_str(), "script.sh")
        }
    }

    pub fn output(&self, task: &str) -> (r: String)
        ensures
            r@ == join_s(task_dir_of(self@.run, task@), "output.json"@),
    {
        let dir = self.task(task);
        join(dir.as_str(), "output.json")
    }

    pub fn stdout(&self, task: &str) -> (r: String)
        ensures
            r@ == join_s(task_dir_of(self@.run, task@), "stdout.log"@),
    {
        let dir = self.task(task);
        join(dir.as_str(), "stdout.log")
    }

    pub fn stderr(&self, task: &str) -> (r: String)
        ensures
            r@ == join_s(task_dir_of(self@.run, task@), "stderr.log"@),
    {
        let dir = self.task(task);
        join(dir.as_str(), "stderr.log")
    }

    pub fn artifacts(&self, task: &str) -> (r: String)
        ensures
            r@ == join_s(task_dir_of(self@.run, task@), "artifacts"@),
    {
        let dir = self.task(task);
        join(dir.as_str(), "artifacts")
    }

    /// A run metadata file: `<name>.yaml` in the run directory.
    pub fn metadata(&self, name: &str) -> (r: String)
        ensures
            r@ == join_s(self@.run, name@ + ".yaml"@),
    {
        let r = join_with_suffix(self.run.as_str(), "", name, ".yaml");
        assert(""@ + name@ + ".yaml"@ =~= name@ + ".yaml"@) by {
            reveal_strlit("");
        }
        r
    }

    pub fn root(&self) -> (r: &String)
        ensures
            r@ == self@.root,
    {
        &self.root
    }

    pub fn run(&self) -> (r: &String)
        ensures
            r@ == self@.run,
    {
        &self.run
    }

    pub fn hash(&self) -> (r: &str)
        ensures
            r@ == self@.hash,
    {
        self.hash.as_str()
    }

    pub fn timestamp(&self) -> (r: u64)
        ensures
            r == self@.time,
    {
        self.time
    }

    /// `path` relative to the project root, or why it is not under it.
    pub fn relative_to_root(&self, path: &str) -> (r: Result<String, String>)
        ensures
            match r {
                Ok(rel) => relative_of(self@.root, path@) == Ok::<Seq<char>, Seq<char>>(rel@),
                Err(m) => relative_of(self@.root, path@) == Err::<Seq<char>, Seq<char>>(m@),
            },
            match r {
                Ok(rel) => under_root(self@.root, path@) && rel@ == join_segments(
                    segments(path@).skip(segments(self@.root).len() as int),
                ),
                Err(m) => !under_root(self@.root, path@) && m@ == not_relative_message(
                    path@,
                    self@.root,
                ),
            },
    {
        let rs = path_segments(self.root.as_str());
        let ps = path_segments(path);
        if self.is_in_project(path) {
            let mut out: Vec<char> = Vec::new();
            let mut k = rs.len();
            let ghost rest = views(ps@).skip(rs.len() as int);
            while k < ps.len()
                invariant
                    rs.len() <= k <= ps.len(),
                    rest == views(ps@).skip(rs.len() as int),
                    out@ == join_segments(rest.take(k - rs.len())),
                decreases ps.len() - k,
            {
                let ghost before = out@;
                assert(rest.take(k - rs.len() + 1).drop_last() =~= rest.take(k - rs.len()));
                assert(rest.take(k - rs.len() + 1).last() == ps@[k as int]@);
                if k > rs.len() {
                    out.push('/');
                }
                push_all(&mut out, ps[k].as_slice());
                proof {
                    if k == rs.len() {
                        assert(out@ =~= rest.take(1)[0]);
                    } else {
                        assert(out@ =~= before + seq!['/'] + ps@[k as int]@);
                    }
                }
                k = k + 1;
            }
            assert(rest.take(k - rs.len()) =~= rest);
            Ok(string_of(out.as_slice()))
        } else {
            let mut m: Vec<char> = Vec::new();
            push_str(&mut m, "Path ");
            push_str(&mut m, path);
            push_str(&mut m, " is not relative to root ");
            push_str(&mut m, self.root.as_str());
            push_str(&mut m, ": prefix not found");
            assert(m@ =~= not_relative_message(path@, self@.root));
            Err(string_of(m.as_slice()))
        }
    }

    /// Whether `path` lies under the project root.
    pub fn is_in_project(&self, path: &str) -> (r: bool)
        ensures
            r == under_root(self@.root, path@),
    {
        let rs = path_segments(self.root.as_str());
        let ps = path_segments(path);
        if crate::paths::is_absolute(self.root.as_str()) != crate::paths::is_absolute(path) {
            return false;
        }
        if rs.len() > ps.len() {
            return false;
        }
        let mut k: usize = 0;
        while k < rs.len()
            invariant
                k <= rs.len() <= ps.len(),
                views(rs@) == segments(self@.root),
                views(ps@) == segments(path@),
                forall|m: int| 0 <= m < k ==> rs@[m]@ == ps@[m]@,
            decreases rs.len() - k,
        {
            if !crate::text::chars_eq(&rs[k], &ps[k]) {
                assert(views(ps@).take(rs.len() as int)[k as int] != views(rs@)[k as int]);
                return false;
            }
            k = k + 1;
        }
        assert(views(ps@).take(rs.len() as int) =~= views(rs@));
        true
    }

    /// `path` joined onto the project root.
    pub fn join_root(&self, path: &str) -> (r: String)
        ensures
            r@ == join_s(self@.root, path@),
    {
        join(self.root.as_str(), path)
    }

    /// The database id of this run, once it was recorded.
    pub fn db_run_id(&self) -> (r: Option<i64>)
        ensures
            r == self@.db_run_id,
    {
        self.db_run_id
    }

    /// Keeps the database id the run was recorded under.
    pub fn set_db_run_id(&mut self, id: i64)
        ensures
            final(self)@ == (WorkspaceView { db_run_id: Some(id), ..old(self)@ }),
    {
        self.db_run_id = Some(id);
    }

    /// What the run history records when the run ends: the run's timestamp
    /// (its key), success or failure, and the size of its run directory
    /// when that could be measured.
    pub fn record_run_complete_in_db(&self, success: bool, size_bytes: Option<u64>) -> (r: RunCompletion)
        ensures
            r.timestamp == self@.time,
            r.status == if success {
                RunStatus::Success
            } else {
                RunStatus::Failed
            },
            r.size_bytes == size_bytes,
    {
        RunCompletion {
            timestamp: self.time,
            status: if success {
                RunStatus::Success
            } else {
                RunStatus::Failed
            },
            size_bytes,
        }
    }

    pub fn task_dir(&self, task_name: &str) -> (r: String)
        ensures
            r@ == task_dir_of(self@.run, task_name@),
    {
        self.task(task_name)
    }

    pub fn task_input_dir(&self, task_name: &str) -> (r: String)
        ensures
            r@ == join_s(task_dir_of(self@.run, task_name@), "inputs"@),
    {
        let dir = self.task(task_name);
        join(dir.as_str(), "inputs")
    }

    pub fn task_output_dir(&self, task_name: &str) -> (r: String)
        ensures
            r@ == join_s(task_dir_of(self@.run, task_name@), "outputs"@),
    {
        let dir = self.task(task_name);
        join(dir.as_str(), "outputs")
    }

    /// The file a task writes its result to: `output.<task>.json`.
    pub fn task_output_file(&self, task_name: &str) -> (r: String)
        ensures
            r@ == join_s(task_dir_of(self@.run, task_name@), "output."@ + task_name@ + ".json"@),
    {
        let dir = self.task(task_name);
        join_with_suffix(dir.as_str(), "output.", task_name, ".json")
    }

    /// The file through which a task reads dependency `dep_name`'s result:
    /// `input.<dep>.json`.
    pub fn task_input_file(&self, task_name: &str, dep_name: &str) -> (r: String)
        ensures
            r@ == join_s(task_dir_of(self@.run, task_name@), "input."@ + dep_name@ + ".json"@),
    {
        let dir = self.task(task_name);
        join_with_suffix(dir.as_str(), "input.", dep_name, ".json")
    }

    pub fn task_script_file(&self, task_name: &str, extension: &str) -> (r: String)
        ensures
            r@ == join_s(task_dir_of(self@.run, task_name@), "script."@ + extension@),
    {
        let dir = self.task(task_name);
        let r = join_with_suffix(dir.as_str(), "script.", extension, "");
        assert("script."@ + extension@ + ""@ =~= "script."@ + extension@) by {
            reveal_strlit("");
        }
        r
    }

    pub fn current_run_dir(&self) -> (r: &String)
        ensures
            r@ == self@.run,
    {
        &self.run
    }

    pub fn project_root(&self) -> (r: &String)
        ensures
            r@ == self@.root,
    {
        &self.root
    }

    pub fn bash_builtins(&self) -> (r: String)
        ensures
            r@ == join_s(self@.project, "builtins.sh"@),
    {
        join(self.project.as_str(), "builtins.sh")
    }

    pub fn python_builtins(&self) -> (r: String)
        ensures
            r@ == join_s(self@.project, "builtins.py"@),
    {
        join(self.project.as_str(), "builtins.py")
    }

    pub fn cache_dir(&self) -> (r: &String)
        ensures
            r@ == self@.cache,
    {
        &self.cache
    }

    /// The home, project and run directories to create, and the run's
    /// `tasks` directory, in that order.
    pub fn directories(&self) -> (r: Vec<String>)
        ensures
            r@.len() == 5,
            r@[0]@ == self@.home,
            r@[1]@ == self@.project,
            r@[2]@ == self@.cache,
            r@[3]@ == self@.run,
            r@[4]@ == join_s(self@.run, "tasks"@),
    {
        let mut v: Vec<String> = Vec::new();
        v.push(self.home.clone());
        v.push(self.project.clone());
        v.push(self.cache.clone());
        v.push(self.run.clone());
        v.push(join(self.run.as_str(), "tasks"));
        v
    }
}

/// A path's segments.
fn path_segments(p: &str) -> (r: Vec<Vec<char>>)
    ensures
        views(r@) == segments(p@),
{
    let cs = chars_of(p);
    let pieces = split_char(&cs, '/');
    let ghost pv = views(pieces@);
    let ghost keep = |s: Seq<char>| s.len() > 0 && s != seq!['.'];
    let mut out: Vec<Vec<char>> = Vec::new();
    let mut k: usize = 0;
    while k < pieces.len()
        invariant
            k <= pieces.len(),
            pv == views(pieces@),
            pv == split_on(p@, '/'),
            views(out@) == pv.take(k as int).filter(|s: Seq<char>| s.len() > 0 && s != seq!['.']),
        decreases pieces.len() - k,
    {
        let piece = &pieces[k];
        let ghost before = views(out@);
        assert(pv.take(k + 1).drop_last() =~= pv.take(k as int));
        assert(pv.take(k + 1).last() == piece@);
        proof {
            reveal(Seq::filter);
        }
        let is_dot = piece.len() == 1 && piece[0] == '.';
        proof {
            if piece@.len() == 1 {
                assert((piece@ == seq!['.']) == (piece@[0] == '.')) by {
                    if piece@[0] == '.' {
                        assert(piece@ =~= seq!['.']);
                    }
                }
            } else {
                assert(piece@ != seq!['.']);
            }
        }
        if piece.len() > 0 && !is_dot {
            out.push(piece.clone());
            assert(views(out@) =~= before.push(piece@));
        }
        k = k + 1;
    }
    assert(pv.take(k as int) =~= pv);
    out
}

} // verus!
