use otto::makefile::{AssignmentType, MakefileParser};

#[test]
fn test_parse_simple_variable() {
    let content = "VAR := value".to_string();
    let mut parser = MakefileParser::new(content);
    let ast = parser.parse().unwrap();

    assert_eq!(ast.variables.len(), 1);
    assert_eq!(ast.variables[0].name, "VAR");
    assert_eq!(ast.variables[0].value, "value");
    assert_eq!(ast.variables[0].assignment_type, AssignmentType::Simple);
}

#[test]
fn test_parse_recursive_variable() {
    let content = "VAR = value".to_string();
    let mut parser = MakefileParser::new(content);
    let ast = parser.parse().unwrap();

    assert_eq!(ast.variables.len(), 1);
    assert_eq!(ast.variables[0].assignment_type, AssignmentType::Recursive);
}

#[test]
fn test_parse_conditional_variable() {
    let content = "VAR ?= default".to_string();
    let mut parser = MakefileParser::new(content);
    let ast = parser.parse().unwrap();

    assert_eq!(ast.variables.len(), 1);
    assert_eq!(ast.variables[0].assignment_type, AssignmentType::Conditional);
}

#[test]
fn test_parse_shell_variable() {
    let content = "VERSION := $(shell git describe --tags)".to_string();
    let mut parser = MakefileParser::new(content);
    let ast = parser.parse().unwrap();

    assert_eq!(ast.variables.len(), 1);
    assert_eq!(ast.variables[0].assignment_type, AssignmentType::ShellExecution);
    assert!(ast.variables[0].value.contains("$(shell"));
}

#[test]
fn test_parse_simple_target() {
    let content = "build:\n\techo Building".to_string();
    let mut parser = MakefileParser::new(content);
    let ast = parser.parse().unwrap();

    assert_eq!(ast.targets.len(), 1);
    assert_eq!(ast.targets[0].name, "build");
    assert_eq!(ast.targets[0].commands.len(), 1);
    assert_eq!(ast.targets[0].commands[0], "echo Building");
}

#[test]
fn test_parse_target_with_dependencies() {
    let content = "build: test clean\n\techo Building".to_string();
    let mut parser = MakefileParser::new(content);
    let ast = parser.parse().unwrap();

    assert_eq!(ast.targets.len(), 1);
    assert_eq!(ast.targets[0].dependencies.len(), 2);
    assert_eq!(ast.targets[0].dependencies[0], "test");
    assert_eq!(ast.targets[0].dependencies[1], "clean");
}

#[test]
fn test_parse_target_with_comment() {
    let content = "# Build the project\nbuild:\n\techo Building".to_string();
    let mut parser = MakefileParser::new(content);
    let ast = parser.parse().unwrap();

    assert_eq!(ast.targets.len(), 1);
    assert_eq!(ast.targets[0].comment, Some("Build the project".to_string()));
}

#[test]
fn test_parse_phony_declaration() {
    let content = ".PHONY: build clean test".to_string();
    let mut parser = MakefileParser::new(content);
    let ast = parser.parse().unwrap();

    assert_eq!(ast.phony_targets.len(), 3);
    assert!(ast.phony_targets.contains(&"build".to_string()));
    assert!(ast.phony_targets.contains(&"clean".to_string()));
    assert!(ast.phony_targets.contains(&"test".to_string()));
}

#[test]
fn test_parse_default_goal() {
    let content = ".DEFAULT_GOAL := build".to_string();
    let mut parser = MakefileParser::new(content);
    let ast = parser.parse().unwrap();

    assert_eq!(ast.default_goal, Some("build".to_string()));
}

#[test]
fn test_parse_multiline_command() {
    let content = "build:\n\tmkdir -p dist && \\\n\techo Done".to_string();
    let mut parser = MakefileParser::new(content);
    let ast = parser.parse().unwrap();

    assert_eq!(ast.targets.len(), 1);
    assert_eq!(ast.targets[0].commands.len(), 1);
    assert!(ast.targets[0].commands[0].contains("mkdir -p dist"));
    assert!(ast.targets[0].commands[0].contains("echo Done"));
}

#[test]
fn test_parse_multiple_targets() {
    let content = "build:\n\techo Building\n\ntest:\n\techo Testing".to_string();
    let mut parser = MakefileParser::new(content);
    let ast = parser.parse().unwrap();

    assert_eq!(ast.targets.len(), 2);
    assert_eq!(ast.targets[0].name, "build");
    assert_eq!(ast.targets[1].name, "test");
}

#[test]
fn test_parse_target_with_multiple_commands() {
    let content = "build:\n\techo Starting\n\tmkdir -p dist\n\techo Done".to_string();
    let mut parser = MakefileParser::new(content);
    let ast = parser.parse().unwrap();

    assert_eq!(ast.targets.len(), 1);
    assert_eq!(ast.targets[0].commands.len(), 3);
}

#[test]
fn test_parse_empty_makefile() {
    let content = "".to_string();
    let mut parser = MakefileParser::new(content);
    let ast = parser.parse().unwrap();

    assert_eq!(ast.variables.len(), 0);
    assert_eq!(ast.targets.len(), 0);
}

#[test]
fn test_parse_comments_only() {
    let content = "# This is a comment\n# Another comment".to_string();
    let mut parser = MakefileParser::new(content);
    let ast = parser.parse().unwrap();

    assert_eq!(ast.variables.len(), 0);
    assert_eq!(ast.targets.len(), 0);
}

#[test]
fn test_parse_complex_makefile() {
    let content = r#".DEFAULT_GOAL := build

VAR1 := value1
VAR2 = value2
VERSION := $(shell git describe --tags)

.PHONY: build clean test

# Build the project
build: test
	echo "Building version $(VERSION)"
	mkdir -p dist

# Run tests
test:
	go test ./...

clean:
	rm -rf dist
"#
    .to_string();

    let mut parser = MakefileParser::new(content);
    let ast = parser.parse().unwrap();

    assert_eq!(ast.default_goal, Some("build".to_string()));
    assert_eq!(ast.variables.len(), 3);
    assert_eq!(ast.phony_targets.len(), 3);
    assert_eq!(ast.targets.len(), 3);
}

#[test]
fn append_assignment_and_exact_continuation_text() {
    let content = "FLAGS += -O2\nall:\n\tcc a.c \\\n\t   -o a\n\techo ok".to_string();
    let mut parser = MakefileParser::new(content);
    let ast = parser.parse().unwrap();
    assert_eq!(ast.variables[0].assignment_type, AssignmentType::Append);
    assert_eq!(ast.variables[0].value, "-O2");
    assert_eq!(ast.targets[0].commands, vec!["cc a.c  -o a".to_string(), "echo ok".to_string()]);
}

#[test]
fn a_special_target_is_skipped_alone() {
    let content = ".SUFFIXES:\nVAR = 1\nX = 2".to_string();
    let mut parser = MakefileParser::new(content);
    let ast = parser.parse().unwrap();
    assert_eq!(ast.variables.len(), 2);
    assert_eq!(ast.variables[0].name, "VAR");
    let mut parser = MakefileParser::new(".SUFFIXES:\nbuild:\n\techo hi".to_string());
    let ast = parser.parse().unwrap();
    assert_eq!(ast.targets.len(), 1);
    assert_eq!(ast.targets[0].name, "build");
    assert_eq!(ast.targets[0].commands, vec!["echo hi".to_string()]);
}

#[test]
fn a_phony_name_is_kept_once() {
    let content = ".PHONY: a b\n.PHONY: b c".to_string();
    let mut parser = MakefileParser::new(content);
    let ast = parser.parse().unwrap();
    assert_eq!(ast.phony_targets, vec!["a".to_string(), "b".to_string(), "c".to_string()]);
}

#[test]
fn a_blank_line_drops_the_comment() {
    let content = "# about build\n\nbuild:\n\ttrue".to_string();
    let mut parser = MakefileParser::new(content);
    let ast = parser.parse().unwrap();
    assert_eq!(ast.targets[0].comment, None);
}
