use otto::dag::TaskDag;
use otto::graph::{DagVisualizer, GraphOptions, NodeStyle};
use otto::task::Task;

fn task(name: &str, deps: Vec<&str>) -> Task {
    Task::new(
        name.to_string(),
        deps.into_iter().map(String::from).collect(),
        vec![],
        vec![],
        vec![],
        format!("echo 'Running {name}'"),
    )
}

#[test]
fn test_dot_string_escaping() {
    let visualizer = DagVisualizer::with_defaults();
    assert_eq!(visualizer.escape_dot_string("hello"), "hello");
    assert_eq!(visualizer.escape_dot_string("hello\nworld"), "hello\\nworld");
    assert_eq!(visualizer.escape_dot_string("say \"hello\""), "say \\\"hello\\\"");
    assert_eq!(visualizer.escape_dot_string("path\\to\\file"), "path\\\\to\\\\file");
}

#[test]
fn test_dot_generation_simple() {
    let nodes = vec![task("build", vec![]), task("test", vec!["build"])];
    let dot = DagVisualizer::with_defaults().dot_of_nodes(&nodes).unwrap();
    assert!(dot.contains("digraph otto_dag"));
    assert!(dot.contains("task_0"));
    assert!(dot.contains("task_1"));
    assert!(dot.contains("Otto Task DAG"));
    assert!(dot.contains("  task_0 -> task_1 [label=\"depends\", color=\"black\"];\n"));
    assert!(dot.ends_with("}\n"));
}

#[test]
fn test_ascii_generation() {
    let nodes = vec![task("setup", vec![]), task("build", vec!["setup"]), task("test", vec!["build"])];
    let ascii = DagVisualizer::with_defaults().ascii_of_nodes(&nodes).unwrap();
    assert!(ascii.contains("Otto Task DAG"));
    assert!(ascii.contains("└─ test\n  └─ build\n    └─ setup\n"));
    assert!(ascii.contains("Legend"));
}

#[test]
fn a_cycle_has_no_leaf() {
    let nodes = vec![task("a", vec!["b"]), task("b", vec!["a"])];
    let ascii = DagVisualizer::with_defaults().ascii_of_nodes(&nodes).unwrap();
    assert!(ascii.ends_with("No leaf tasks found (possible circular dependencies)\n"));
}

#[test]
fn a_file_gets_one_node_and_an_edge_per_use() {
    let a = Task::new("a".to_string(), vec![], vec!["src/x.c".to_string()], vec![], vec![], "cc".to_string());
    let b = Task::new("b".to_string(), vec![], vec!["src/x.c".to_string()], vec![], vec![], "cc".to_string());
    let dot = DagVisualizer::with_defaults().dot_of_nodes(&vec![a, b]).unwrap();
    assert_eq!(dot.matches("  file_src_x_c [label=").count(), 1);
    assert!(dot.contains("  file_src_x_c -> task_0 [label=\"input\""));
    assert!(dot.contains("  file_src_x_c -> task_1 [label=\"input\""));
}

#[test]
fn a_detailed_label_counts_and_shows_the_hash_head() {
    let t = Task::new("a".to_string(), vec![], vec!["x".to_string()], vec![], vec![], "cc".to_string());
    let v = DagVisualizer::with_defaults();
    let label = v.create_node_label(&t);
    assert_eq!(label, format!("a\nInputs: 1\n[{}]", &t.hash[..6]));
    let simple = DagVisualizer::new(GraphOptions { style: NodeStyle::Simple, ..GraphOptions::default() });
    assert_eq!(simple.create_node_label(&t), "a");
}

#[test]
fn a_label_shows_the_first_six_bytes_of_a_wider_hash() {
    let mut t = Task::new("a".to_string(), vec![], vec![], vec![], vec![], "cc".to_string());
    t.hash = "ab\u{e9}cd123".to_string();
    let compact = DagVisualizer::new(GraphOptions { style: NodeStyle::Compact, ..GraphOptions::default() });
    assert_eq!(compact.create_node_label(&t), "a\n[ab\u{e9}cd]");
    t.hash = "x".to_string();
    let simple = DagVisualizer::new(GraphOptions { style: NodeStyle::Simple, ..GraphOptions::default() });
    assert_eq!(simple.create_node_label(&t), "a");
}

fn graph_of(tasks: Vec<Task>) -> TaskDag {
    match DagVisualizer::create_dag_from_tasks(tasks) {
        Ok(dag) => dag,
        Err(m) => panic!("{}", m),
    }
}

#[test]
fn the_graph_orders_nodes_by_name() {
    let dag = graph_of(vec![task("test", vec!["build"]), task("build", vec![])]);
    let dot = DagVisualizer::with_defaults().generate_dot(&dag).unwrap();
    assert!(dot.contains("  task_0 [label=\"build\\n["));
    assert!(dot.contains("  task_1 [label=\"test\\n["));
    assert!(dot.contains("  task_0 -> task_1 [label=\"depends\", color=\"black\"];\n"));
}

#[test]
fn the_graph_draws_as_a_tree() {
    let dag = graph_of(vec![task("test", vec!["build"]), task("setup", vec![]), task("build", vec!["setup"])]);
    let ascii = DagVisualizer::with_defaults().generate_ascii(&dag).unwrap();
    assert!(ascii.contains("└─ test\n  └─ build\n    └─ setup\n"));
}

#[test]
fn a_cycle_is_refused_at_the_closing_edge() {
    match DagVisualizer::create_dag_from_tasks(vec![task("a", vec!["b"]), task("b", vec!["a"])]) {
        Ok(_) => panic!("a cycle was accepted"),
        Err(m) => assert_eq!(m, "Failed to add edge to b: WouldCycle\n"),
    }
}

#[test]
fn a_task_that_needs_itself_is_refused() {
    match DagVisualizer::create_dag_from_tasks(vec![task("a", vec!["a"])]) {
        Ok(_) => panic!("a loop was accepted"),
        Err(m) => assert_eq!(m, "Failed to add edge to a: WouldCycle\n"),
    }
}

#[test]
fn an_unknown_dependency_adds_no_edge() {
    let dag = graph_of(vec![task("a", vec!["missing"])]);
    let dot = DagVisualizer::with_defaults().generate_dot(&dag).unwrap();
    assert!(!dot.contains("->"));
}

use otto::graph::{image_format, GraphFormat};

#[test]
fn a_graph_command_names_its_format() {
    assert_eq!(GraphFormat::from_name("dot"), GraphFormat::Dot);
    assert_eq!(GraphFormat::from_name("svg"), GraphFormat::Svg);
    assert_eq!(GraphFormat::from_name("png"), GraphFormat::Png);
    assert_eq!(GraphFormat::from_name("pdf"), GraphFormat::Pdf);
    assert_eq!(GraphFormat::from_name("ascii"), GraphFormat::Ascii);
    assert_eq!(GraphFormat::from_name("jpeg"), GraphFormat::Ascii);
}

#[test]
fn an_image_format_follows_the_request_or_the_extension() {
    assert_eq!(image_format(GraphFormat::Png, Some("svg")), Ok("png".to_string()));
    assert_eq!(image_format(GraphFormat::Auto, Some("pdf")), Ok("pdf".to_string()));
    assert_eq!(image_format(GraphFormat::Auto, Some("txt")), Ok("svg".to_string()));
    assert_eq!(image_format(GraphFormat::Auto, None), Ok("svg".to_string()));
    assert_eq!(image_format(GraphFormat::Dot, None), Err("Invalid format for image generation".to_string()));
}

#[test]
fn the_output_file_defaults_to_otto_graph() {
    let v = DagVisualizer::new(GraphOptions { format: GraphFormat::Auto, ..GraphOptions::default() });
    assert_eq!(v.determine_output_format(), Ok(("svg".to_string(), "otto_graph.svg".to_string())));
    let v = DagVisualizer::new(GraphOptions {
        format: GraphFormat::Auto,
        output_path: Some("out/deps.png".to_string()),
        ..GraphOptions::default()
    });
    assert_eq!(v.determine_output_format(), Ok(("png".to_string(), "out/deps.png".to_string())));
    let v = DagVisualizer::new(GraphOptions {
        format: GraphFormat::Pdf,
        output_path: Some(".png".to_string()),
        ..GraphOptions::default()
    });
    assert_eq!(v.determine_output_format(), Ok(("pdf".to_string(), ".png".to_string())));
    let v = DagVisualizer::new(GraphOptions { format: GraphFormat::Ascii, ..GraphOptions::default() });
    assert!(v.determine_output_format().is_err());
}

#[test]
fn test_ascii_generation_on_a_built_graph() {
    let dag = graph_of(vec![task("setup", vec![]), task("build", vec!["setup"]), task("test", vec!["build"])]);
    let ascii = DagVisualizer::with_defaults().generate_ascii(&dag).unwrap();
    assert!(ascii.contains("Otto Task DAG"));
    assert!(ascii.contains("└─ test\n  └─ build\n    └─ setup\n"));
    assert!(ascii.contains("Legend"));
}
