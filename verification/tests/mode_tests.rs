use otto::mode::{ProgressMode, ProgressSetting};

#[test]
fn parse_accepts_auto_and_never() {
    assert_eq!(ProgressSetting::parse("auto"), Ok(ProgressSetting::Auto));
    assert_eq!(ProgressSetting::parse("never"), Ok(ProgressSetting::Never));
}

#[test]
fn parse_rejects_always_by_name() {
    let err = ProgressSetting::parse("always").unwrap_err();
    assert!(err.contains("always"), "error should name the rejected value: {err}");
    assert!(err.contains("auto"), "error should name a valid value: {err}");
    assert!(err.contains("never"), "error should name a valid value: {err}");
}

#[test]
fn parse_rejects_garbage() {
    assert!(ProgressSetting::parse("").is_err());
    assert!(ProgressSetting::parse("Auto").is_err());
}

#[test]
fn never_resolves_quiet_even_on_a_terminal() {
    assert_eq!(
        ProgressMode::resolve_with(ProgressSetting::Never, true, Some("xterm-256color"), false),
        ProgressMode::Quiet
    );
}
