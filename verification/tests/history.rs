use dylint::revs::{rev_info, select_version, Oid, Rev, SearchError, SearchStep, VersionSearch};

fn oid(n: u8) -> Oid {
    Oid { bytes: [n; 20] }
}

fn rev(version: &str, n: u8) -> Rev {
    Rev { version: version.to_owned(), channel: format!("nightly-{n}"), oid: oid(n) }
}

/// Revisions newest first, as history is read.
fn history() -> Vec<Option<Rev>> {
    vec![
        Some(rev("0.1.65", 65)),
        None,
        Some(rev("0.1.64", 64)),
        Some(rev("0.1.61", 61)),
        Some(rev("0.1.60", 60)),
        Some(rev("0.1.58", 58)),
    ]
}

#[test]
fn select_exact_version() {
    let r = select_version(&history(), "0.1.64").unwrap();
    assert_eq!(r.version, "0.1.64");
    assert_eq!(r.oid.bytes, [64; 20]);
}

#[test]
fn select_oldest_at_or_above_target() {
    let r = select_version(&history(), "0.1.63").unwrap();
    assert_eq!(r.version, "0.1.64");
    let r = select_version(&history(), "0.1.59").unwrap();
    assert_eq!(r.version, "0.1.60");
}

#[test]
fn select_oldest_when_target_precedes_history() {
    let r = select_version(&history(), "0.0.1").unwrap();
    assert_eq!(r.version, "0.1.58");
}

#[test]
fn select_nothing_above_newest() {
    assert!(select_version(&history(), "0.1.66").is_none());
}

#[test]
fn select_from_nothing() {
    assert!(select_version(&vec![None, None], "0.1.60").is_none());
    assert!(select_version(&history(), "not a version").is_none());
}

#[test]
fn select_skips_unparsable_versions() {
    let data = vec![Some(rev("garbage", 1)), Some(rev("0.1.60", 60))];
    assert_eq!(select_version(&data, "0.1.59").unwrap().version, "0.1.60");
}

#[test]
fn search_refuses_a_bad_target() {
    match VersionSearch::new("0.1") {
        Err(SearchError::InvalidTarget(t)) => assert_eq!(t, "0.1"),
        Err(other) => panic!("unexpected error: {other:?}"),
        Ok(_) => panic!("accepted a bad target"),
    }
}

#[test]
fn search_target_newer_than_head_finds_nothing() {
    let mut search = VersionSearch::new("999.0.0").unwrap();
    assert_eq!(search.limit, 1);
    match search.feed(vec![Some(rev("0.1.65", 65))]) {
        SearchStep::Done(None) => {}
        other => panic!("unexpected: {other:?}"),
    }
}

#[test]
fn search_doubles_batches_until_history_brackets_the_target() {
    let mut search = VersionSearch::new("0.1.61").unwrap();
    assert!(matches!(search.feed(vec![Some(rev("0.1.65", 65))]), SearchStep::Continue));
    assert_eq!(search.limit, 2);
    assert!(matches!(search.feed(vec![None, Some(rev("0.1.64", 64))]), SearchStep::Continue));
    assert_eq!(search.limit, 4);
    match search.feed(vec![
        Some(rev("0.1.61", 61)),
        Some(rev("0.1.60", 60)),
        Some(rev("0.1.58", 58)),
        Some(rev("0.1.57", 57)),
    ]) {
        SearchStep::Done(Some(r)) => assert_eq!(r.version, "0.1.61"),
        other => panic!("unexpected: {other:?}"),
    }
}

#[test]
fn search_ends_with_history() {
    let mut search = VersionSearch::new("0.0.1").unwrap();
    assert!(matches!(search.feed(vec![Some(rev("0.1.65", 65))]), SearchStep::Continue));
    match search.feed(vec![Some(rev("0.1.58", 58))]) {
        SearchStep::Done(Some(r)) => assert_eq!(r.version, "0.1.58"),
        other => panic!("unexpected: {other:?}"),
    }
}

#[test]
fn search_of_empty_history_fails() {
    let mut search = VersionSearch::new("0.1.60").unwrap();
    assert!(matches!(search.feed(vec![]), SearchStep::Failed(SearchError::NoValidCommits)));
}

#[test]
fn search_fails_on_unparsable_head() {
    let mut search = VersionSearch::new("0.1.60").unwrap();
    match search.feed(vec![Some(rev("x.y", 1))]) {
        SearchStep::Failed(SearchError::InvalidVersion(v)) => assert_eq!(v, "x.y"),
        other => panic!("unexpected: {other:?}"),
    }
}

#[test]
fn commit_information() {
    let cargo_toml = "[package]\nname = \"clippy\"\nversion = \"0.1.65\"\n";
    let r = rev_info(Some(cargo_toml), Some("  nightly-2022-08-11\n"), oid(7)).unwrap().unwrap();
    assert_eq!(r.version, "0.1.65");
    assert_eq!(r.channel, "nightly-2022-08-11");
    assert_eq!(r.oid.bytes, [7; 20]);

    let toolchain = "[toolchain]\nchannel = \"nightly-2022-08-11\"\ncomponents = [\"rustc-dev\"]\n";
    let r = rev_info(Some(cargo_toml), Some(toolchain), oid(7)).unwrap().unwrap();
    assert_eq!(r.channel, "nightly-2022-08-11");

    assert!(rev_info(Some("[workspace]\n"), Some("nightly"), oid(1)).unwrap().is_none());
    assert!(rev_info(None, Some("nightly"), oid(1)).unwrap().is_none());
    assert!(rev_info(Some("not toml ="), None, oid(1)).unwrap().is_none());
    let err = rev_info(Some(cargo_toml), None, oid(9)).unwrap_err();
    assert_eq!(err.oid.bytes, [9; 20]);
}

#[test]
fn search_for_an_absent_version_finds_the_first_commit_above_it() {
    let mut search = VersionSearch::new("0.1.62").unwrap();
    assert!(matches!(search.feed(vec![Some(rev("0.1.65", 65))]), SearchStep::Continue));
    assert!(matches!(search.feed(vec![None, Some(rev("0.1.64", 64))]), SearchStep::Continue));
    match search.feed(vec![
        Some(rev("0.1.61", 61)),
        Some(rev("0.1.60", 60)),
        Some(rev("0.1.58", 58)),
        Some(rev("0.1.57", 57)),
    ]) {
        SearchStep::Done(Some(r)) => assert_eq!(r.version, "0.1.64"),
        other => panic!("unexpected: {other:?}"),
    }
}

#[test]
fn search_failure_messages() {
    assert_eq!(
        SearchError::InvalidTarget("0.1".to_owned()).message(),
        "Invalid target version string: 0.1"
    );
    assert_eq!(
        SearchError::NoValidCommits.message(),
        "No valid commits found in repository history"
    );
}
