use otto::workspace::{ExecutionContext, Workspace};

fn ws() -> Workspace {
    Workspace::from_home("/home/u", "/src/proj".to_string(), "abcd1234".to_string(), 1700000000)
}

#[test]
fn the_layout_hangs_off_the_home_directory() {
    let w = ws();
    assert_eq!(w.cache_dir(), "/home/u/.otto/otto-abcd1234/.cache");
    assert_eq!(w.run(), "/home/u/.otto/otto-abcd1234/1700000000");
    assert_eq!(w.task("build"), "/home/u/.otto/otto-abcd1234/1700000000/tasks/build");
    assert_eq!(w.script("build", true), "/home/u/.otto/otto-abcd1234/1700000000/tasks/build/script.py");
    assert_eq!(w.script("build", false), "/home/u/.otto/otto-abcd1234/1700000000/tasks/build/script.sh");
    assert!(w.output("t").ends_with("output.json"));
    assert!(w.stdout("t").ends_with("stdout.log"));
    assert!(w.stderr("t").ends_with("stderr.log"));
    assert!(w.artifacts("t").ends_with("artifacts"));
    assert!(w.metadata("run").ends_with("run.yaml"));
    assert_eq!(w.task_output_file("a"), "/home/u/.otto/otto-abcd1234/1700000000/tasks/a/output.a.json");
    assert_eq!(w.task_input_file("a", "b"), "/home/u/.otto/otto-abcd1234/1700000000/tasks/a/input.b.json");
    assert_eq!(w.task_script_file("a", "sh"), "/home/u/.otto/otto-abcd1234/1700000000/tasks/a/script.sh");
    assert_eq!(w.script_cache("a", "ff"), "/home/u/.otto/otto-abcd1234/.cache/a/ff");
    assert_eq!(w.bash_builtins(), "/home/u/.otto/otto-abcd1234/builtins.sh");
    assert_eq!(w.python_builtins(), "/home/u/.otto/otto-abcd1234/builtins.py");
    assert_eq!(w.hash(), "abcd1234");
    assert_eq!(w.timestamp(), 1700000000);
    assert_eq!(w.root(), "/src/proj");
    assert_eq!(w.project_root(), "/src/proj");
    assert_eq!(w.directories().len(), 5);
}

#[test]
fn paths_under_the_root_are_in_the_project() {
    let w = ws();
    assert!(w.is_in_project("/src/proj/a/b.txt"));
    assert!(w.is_in_project("/src/proj"));
    assert!(!w.is_in_project("/src/project/a"));
    assert!(!w.is_in_project("src/proj/a"));
    assert_eq!(w.relative_to_root("/src/proj/a/b.txt"), Ok("a/b.txt".to_string()));
    assert_eq!(
        w.relative_to_root("/elsewhere"),
        Err("Path /elsewhere is not relative to root /src/proj: prefix not found".to_string())
    );
    assert_eq!(w.join_root("x/y"), "/src/proj/x/y");
}

#[test]
fn a_database_id_is_kept_once_recorded() {
    let mut w = ws();
    assert_eq!(w.db_run_id(), None);
    w.set_db_run_id(7);
    assert_eq!(w.db_run_id(), Some(7));
}

#[test]
fn the_project_hash_is_eight_hex_digits() {
    let h = Workspace::project_hash("/src/proj");
    assert_eq!(h.len(), 8);
    assert_eq!(h, Workspace::project_hash("/src/proj"));
}

#[test]
fn a_context_falls_back_when_the_environment_says_nothing() {
    let c = ExecutionContext::from_environment(None, None, 5);
    assert_eq!(c.cwd, "/");
    assert_eq!(c.user, "unknown");
    assert_eq!(c.prog, "otto");
    assert_eq!(c.args, vec!["otto".to_string()]);
}

#[test]
fn a_finished_run_is_recorded_under_its_timestamp() {
    let ws = Workspace::from_home("/home/u", "/src/p".to_string(), "abc12345".to_string(), 1700000000);
    let ok = ws.record_run_complete_in_db(true, Some(42));
    assert_eq!(ok.timestamp, 1700000000);
    assert_eq!(ok.status, otto::schema::RunStatus::Success);
    assert_eq!(ok.size_bytes, Some(42));
    let failed = ws.record_run_complete_in_db(false, None);
    assert_eq!(failed.status, otto::schema::RunStatus::Failed);
    assert_eq!(failed.size_bytes, None);
}

#[test]
fn a_path_made_relative_rejoins_to_the_same_place() {
    let w = ws();
    let rel = w.relative_to_root("/src/proj/./a//b.txt").unwrap();
    assert_eq!(rel, "a/b.txt");
    assert_eq!(w.join_root(&rel), "/src/proj/a/b.txt");
    let back = w.relative_to_root(&w.join_root("x//y/")).unwrap();
    assert_eq!(back, "x/y");
}
