use otto::task::{calculate_hash, Task, TaskSpec};

#[test]
fn the_hash_is_the_head_of_the_scripts_sha256() {
    // SHA-256("echo hello") = 4e09....
    let h = calculate_hash(&"echo hello".to_string());
    assert_eq!(h.len(), 8);
    assert!(h.chars().all(|c| c.is_ascii_hexdigit() && !c.is_ascii_uppercase()));
    assert_eq!(h, calculate_hash(&"echo hello".to_string()));
    assert_ne!(h, calculate_hash(&"echo world".to_string()));
    assert_eq!(calculate_hash(&"".to_string()), "e3b0c442");
}

#[test]
fn patterns_resolve_against_the_working_directory() {
    assert_eq!(Task::glob_pattern("src/*.rs", "/work"), "/work/src/*.rs");
    assert_eq!(Task::glob_pattern("/abs/x", "/work"), "/abs/x");
    let resolved = Task::resolve_file_globs(
        &vec!["*.c".to_string(), "missing.h".to_string()],
        "/w/",
        &vec![vec!["/w/a.c".to_string(), "/w/b.c".to_string()], vec![]],
    );
    assert_eq!(resolved, vec!["/w/a.c".to_string(), "/w/b.c".to_string(), "/w/missing.h".to_string()]);
}

#[test]
fn a_spec_becomes_a_task_with_a_trimmed_script() {
    let spec = TaskSpec {
        name: "build".to_string(),
        before: vec!["fetch".to_string()],
        input: vec!["in.txt".to_string()],
        output: vec![],
        envs: vec![],
        action: "  make all \n".to_string(),
    };
    let t = Task::from_task_with_cwd(&spec, "/p", &vec![vec![]], &vec![], vec![("A".to_string(), "1".to_string())]);
    assert_eq!(t.name, "build");
    assert_eq!(t.task_deps, vec!["fetch".to_string()]);
    assert_eq!(t.file_deps, vec!["/p/in.txt".to_string()]);
    assert!(t.output_deps.is_empty());
    assert_eq!(t.action, "make all");
    assert_eq!(t.hash, calculate_hash(&"make all".to_string()));
}

#[test]
fn a_task_process_gets_its_variables_then_ottos() {
    let t = Task::new(
        "build".to_string(),
        vec![],
        vec![],
        vec![],
        vec![("CC".to_string(), "clang".to_string()), ("OTTO_USER".to_string(), "mine".to_string())],
        "make".to_string(),
    );
    let env = t.command_env("/w/tasks/build", "/w", "/w/tasks", "ann");
    let pairs: Vec<(&str, &str)> = env.iter().map(|(k, v)| (k.as_str(), v.as_str())).collect();
    assert_eq!(
        pairs,
        vec![
            ("CC", "clang"),
            ("OTTO_USER", "mine"),
            ("OTTO_TASK", "build"),
            ("OTTO_TASK_DIR", "/w/tasks/build"),
            ("OTTO_WORKSPACE", "/w"),
            ("OTTO_TASKS_DIR", "/w/tasks"),
            ("OTTO_USER", "ann"),
        ]
    );
}

#[test]
fn each_target_becomes_a_task_with_its_recipe_as_script() {
    let mut parser = otto::makefile::MakefileParser::new("build: gen\n\tcc -c a.c\n\tcc -o a a.o\ngen:\n\ttrue\n".to_string());
    let ast = parser.parse().unwrap();
    let tasks = otto::task::tasks_from(&ast);
    assert_eq!(tasks.len(), 2);
    assert_eq!(tasks[0].name, "build");
    assert_eq!(tasks[0].task_deps, vec!["gen".to_string()]);
    assert_eq!(tasks[0].action, "cc -c a.c\ncc -o a a.o");
    assert_eq!(tasks[0].hash, otto::task::calculate_hash(&"cc -c a.c\ncc -o a a.o".to_string()));
    assert!(tasks[0].file_deps.is_empty() && tasks[0].envs.is_empty());
    assert_eq!(tasks[1].name, "gen");
    assert_eq!(tasks[1].action, "true");
}
