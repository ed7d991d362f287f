use dotfiles::config::{phases, verbosity, Action, Phase, Verbosity};

#[test]
fn sync_builds_then_links() {
    assert_eq!(phases(Action::Sync), vec![Phase::Build, Phase::Link]);
}

#[test]
fn diff_builds_then_compares() {
    assert_eq!(phases(Action::Diff), vec![Phase::Build, Phase::Compare]);
}

#[test]
fn print_scans() {
    assert_eq!(phases(Action::Print), vec![Phase::Scan]);
}

#[test]
fn verbosity_levels() {
    assert_eq!(verbosity(0), Verbosity::Warn);
    assert_eq!(verbosity(1), Verbosity::Info);
    assert_eq!(verbosity(2), Verbosity::Debug);
    assert_eq!(verbosity(3), Verbosity::Trace);
    assert_eq!(verbosity(255), Verbosity::Trace);
}
