//! The `--progress` setting, and what it resolves to once stderr is known.

use vstd::prelude::*;
use crate::text::{str_eq, string_of, push_str};

verus! {

/// What `--progress` / `OTTO_PROGRESS` / `otto.progress` asked for.
#[derive(Debug, Clone, Copy, PartialEq, Eq, Structural)]
pub enum ProgressSetting {
    Auto,
    Never,
}

/// The message for a value that is neither `auto` nor `never`.
pub open spec fn invalid_progress_message(value: Seq<char>) -> Seq<char> {
    "invalid progress value '"@ + value
        + "': expected one of auto, never ('always' was measured and cut, see docs/design/2026-09-16-live-progress-renderer.md)"@
}

/// The setting a value names, or the error message for it.
pub open spec fn progress_setting_of(value: Seq<char>) -> Result<ProgressSetting, Seq<char>> {
    if value == "auto"@ {
        Ok(ProgressSetting::Auto)
    } else if value == "never"@ {
        Ok(ProgressSetting::Never)
    } else {
        Err(invalid_progress_message(value))
    }
}

impl ProgressSetting {
    /// Parses `auto` or `never`, spelled exactly.
    pub fn parse(value: &str) -> (r: Result<ProgressSetting, String>)
        ensures
            match (r, progress_setting_of(value@)) {
                (Ok(a), Ok(b)) => a == b,
                (Err(m), Err(n)) => m@ == n,
                _ => false,
            },
    {
        if str_eq(value, "auto") {
            Ok(ProgressSetting::Auto)
        } else if str_eq(value, "never") {
            Ok(ProgressSetting::Never)
        } else {
            let mut out: Vec<char> = Vec::new();
            push_str(&mut out, "invalid progress value '");
            push_str(&mut out, value);
            push_str(
                &mut out,
                "': expected one of auto, never ('always' was measured and cut, see docs/design/2026-09-16-live-progress-renderer.md)",
            );
            Err(string_of(out.as_slice()))
        }
    }
}

/// Whether this run draws a live region on stderr.
#[derive(Debug, Clone, Copy, PartialEq, Eq, Structural)]
pub enum ProgressMode {
    Live,
    Quiet,
}

/// `auto` is Live iff stderr is a terminal, `TERM` is not `dumb` and no `CI`
/// is set; `never` is always Quiet.
pub open spec fn resolved_mode(
    setting: ProgressSetting,
    stderr_is_terminal: bool,
    term: Option<Seq<char>>,
    ci: bool,
) -> ProgressMode {
    match setting {
        ProgressSetting::Never => ProgressMode::Quiet,
        ProgressSetting::Auto => {
            let dumb = term == Some("dumb"@);
            if stderr_is_terminal && !dumb && !ci {
                ProgressMode::Live
            } else {
                ProgressMode::Quiet
            }
        },
    }
}

impl ProgressMode {
    /// The pure predicate behind the startup resolution, taking the three
    /// environment facts as arguments.
    pub fn resolve_with(
        setting: ProgressSetting,
        stderr_is_terminal: bool,
        term: Option<&str>,
        ci: bool,
    ) -> (r: ProgressMode)
        ensures
            r == resolved_mode(
                setting,
                stderr_is_terminal,
                match term {
                    Some(t) => Some(t@),
                    None => None,
                },
                ci,
            ),
    {
        match setting {
            ProgressSetting::Never => ProgressMode::Quiet,
            ProgressSetting::Auto => {
                let dumb = match term {
                    Some(t) => str_eq(t, "dumb"),
                    None => false,
                };
                if stderr_is_terminal && !dumb && !ci {
                    ProgressMode::Live
                } else {
                    ProgressMode::Quiet
                }
            },
        }
    }
}

} // verus!
