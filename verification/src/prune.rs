//! Where otto keeps its runs, and when automatic pruning is due.

use vstd::prelude::*;
use crate::paths::{join, join_s};
use crate::text::{chars_of, string_of};

verus! {

/// The otto home: `OTTO_HOME` when set, `<home>/.otto` otherwise.
pub open spec fn otto_home_of(otto_home: Option<Seq<char>>, home: Seq<char>) -> Seq<char> {
    match otto_home {
        Some(h) => h,
        None => join_s(home, ".otto"@),
    }
}

pub fn resolve_otto_home_from(otto_home: Option<&str>, home: &str) -> (r: String)
    ensures
        r@ == otto_home_of(
            match otto_home {
                Some(h) => Some(h@),
                None => None,
            },
            home@,
        ),
{
    match otto_home {
        Some(h) => string_of(chars_of(h).as_slice()),
        None => join(home, ".otto"),
    }
}

/// Seconds in an hour.
pub const SECS_PER_HOUR: u64 = 3600;

/// Whether an automatic prune runs now: only when enabled, and not while
/// the last one (its marker's age, when known) is younger than the
/// interval.
pub open spec fn prune_due_rule(auto_prune: bool, marker_age_secs: Option<u64>, interval_hours: u64) -> bool {
    auto_prune && match marker_age_secs {
        Some(age) => age >= interval_hours * SECS_PER_HOUR,
        None => true,
    }
}

pub fn prune_due(auto_prune: bool, marker_age_secs: Option<u64>, interval_hours: u64) -> (r: bool)
    requires
        interval_hours <= u64::MAX / SECS_PER_HOUR,
    ensures
        r == prune_due_rule(auto_prune, marker_age_secs, interval_hours),
{
    if !auto_prune {
        return false;
    }
    match marker_age_secs {
        Some(age) => age >= interval_hours * SECS_PER_HOUR,
        None => true,
    }
}

} // verus!
