use otto::colors::{plain_task_label, set_global_task_order, task_label};

fn strip_escapes(s: &str) -> String {
    let mut out = String::new();
    let mut in_escape = false;
    for c in s.chars() {
        if in_escape {
            in_escape = c != 'm';
        } else if c == '\u{1b}' {
            in_escape = true;
        } else {
            out.push(c);
        }
    }
    out
}

#[test]
fn a_painted_label_is_its_plain_label_between_escapes() {
    colored::control::set_override(true);
    let order = set_global_task_order(vec!["build".to_string(), "test".to_string()]);
    let label = task_label(&order, "build", false);
    assert_eq!(label, "\u{1b}[91m[\u{1b}[0m\u{1b}[92mbuild\u{1b}[0m\u{1b}[91m]\u{1b}[0m");
    assert_eq!(strip_escapes(&label), plain_task_label("build", false));
    let bare = task_label(&order, "test", true);
    assert_eq!(bare, "\u{1b}[94mtest\u{1b}[0m");
    assert_eq!(strip_escapes(&bare), "test");
    colored::control::unset_override();
}
