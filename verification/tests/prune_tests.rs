use otto::prune::{prune_due, resolve_otto_home_from};

#[test]
fn otto_home_prefers_its_own_variable() {
    assert_eq!(resolve_otto_home_from(Some("/srv/otto"), "/home/u"), "/srv/otto");
    assert_eq!(resolve_otto_home_from(None, "/home/u"), "/home/u/.otto");
}

#[test]
fn pruning_waits_for_its_interval() {
    assert!(!prune_due(false, None, 24), "disabled pruning never runs");
    assert!(prune_due(true, None, 24), "no marker means never pruned");
    assert!(!prune_due(true, Some(3600), 24), "pruned an hour ago");
    assert!(prune_due(true, Some(24 * 3600), 24), "a full interval has passed");
    assert!(prune_due(true, Some(0), 0), "a zero interval prunes every time");
}
