use dylint::library::{
    accessed_by_metadata, combined_library_packages, dylint_metadata_libraries, root_attempt,
    AttemptStep, MetadataError, dummy_dependency_free_suffix,
    first_unknown_key, flatten_toolchain_map, is_valid_lib_name,
    manifest_contents, metadata_failure, name_as_lib, package_library_name, pick_accessed,
    to_map_entry, AccessedError, ManifestLocation, MetadataEntry, MetadataFailure,
    MetadataPackage, NameAsLibError, Subdir, Target, TargetKind,
};

fn target(name: &str, kind: Vec<TargetKind>) -> Target {
    Target { name: name.to_owned(), kind }
}

#[test]
fn library_name_is_the_first_cdylib() {
    let package = MetadataPackage {
        id: "pkg 0.1.0".to_owned(),
        targets: vec![
            target("build-script", vec![TargetKind::CustomBuild]),
            target("question_mark_in_expression", vec![TargetKind::Lib, TargetKind::CDyLib]),
            target("other", vec![TargetKind::CDyLib]),
        ],
    };
    assert_eq!(package_library_name(&package).unwrap(), "question_mark_in_expression");
}

#[test]
fn package_without_cdylib_has_no_library() {
    let package = MetadataPackage {
        id: "pkg 0.1.0".to_owned(),
        targets: vec![
            target("pkg", vec![TargetKind::Lib]),
            target("x", vec![TargetKind::Unknown("weird".to_owned())]),
        ],
    };
    assert_eq!(package_library_name(&package).unwrap_err().package_id, "pkg 0.1.0");
}

#[test]
fn valid_library_names() {
    assert!(is_valid_lib_name("clippy"));
    assert!(is_valid_lib_name("question_mark_in_expression"));
    assert!(is_valid_lib_name(".hidden"));
    assert!(!is_valid_lib_name(""));
    assert!(!is_valid_lib_name("."));
    assert!(!is_valid_lib_name(".."));
    assert!(!is_valid_lib_name("a/b"));
    assert!(!is_valid_lib_name("dir/"));
    assert!(!is_valid_lib_name("/abs"));
}

#[test]
fn flatten_keeps_toolchain_order() {
    let map = vec![
        ("nightly-2023".to_owned(), vec![1u32, 2]),
        ("nightly-2024".to_owned(), vec![]),
        ("stable".to_owned(), vec![3]),
    ];
    assert_eq!(
        flatten_toolchain_map(&map),
        vec![
            ("nightly-2023".to_owned(), 1),
            ("nightly-2023".to_owned(), 2),
            ("stable".to_owned(), 3)
        ]
    );
}

#[test]
fn name_as_lib_outcomes() {
    let one = vec![("nightly".to_owned(), vec![7usize])];
    assert_eq!(name_as_lib("clippy", true, Some(&one)).unwrap(), Some(("nightly".to_owned(), 7)));

    let none: Vec<(String, Vec<usize>)> = vec![("nightly".to_owned(), vec![])];
    assert_eq!(name_as_lib("clippy", true, Some(&none)).unwrap(), None);

    let two = vec![("a".to_owned(), vec![1usize]), ("b".to_owned(), vec![2])];
    match name_as_lib("clippy", false, Some(&two)) {
        Err(NameAsLibError::Multiple(name, found)) => {
            assert_eq!(name, "clippy");
            assert_eq!(found, vec![("a".to_owned(), 1), ("b".to_owned(), 2)]);
        }
        other => panic!("unexpected: {other:?}"),
    }

    assert!(matches!(name_as_lib::<usize>("a/b", false, None), Ok(None)));
    assert!(matches!(
        name_as_lib::<usize>("a/b", true, None),
        Err(NameAsLibError::InvalidName(ref n)) if n == "a/b"
    ));
    assert!(matches!(name_as_lib::<usize>("clippy", false, None), Ok(None)));
    assert!(matches!(
        name_as_lib::<usize>("clippy", true, None),
        Err(NameAsLibError::NotFound(ref n)) if n == "clippy"
    ));
}

#[test]
fn map_entries() {
    let v = "https://example.com".to_owned();
    assert_eq!(to_map_entry("git", Some(&v)), Some(("git".to_owned(), v.clone())));
    assert_eq!(to_map_entry("git", None), None);
}

#[test]
fn dummy_manifest() {
    assert_eq!(
        manifest_contents("dep", "git = \"https://x\"\n"),
        "\n[package]\nname = \"dummy-package\"\nversion = \"0.1.0\"\nedition = \"2024\"\npublish = false\n\n[dependencies.dep]\ngit = \"https://x\"\n\n"
    );
}

#[test]
fn output_after_last_mention_of_the_dummy_dependency() {
    let s = "Updating git repository\nerror: failed to load tmp123\nCaused by:\n  other trouble\n";
    assert_eq!(dummy_dependency_free_suffix("tmp123", s), "Caused by:\n  other trouble\n");
    assert_eq!(dummy_dependency_free_suffix("absent", s), s);
    assert_eq!(dummy_dependency_free_suffix("trouble", s), "");
    assert_eq!(dummy_dependency_free_suffix("x", ""), "");
    assert_eq!(dummy_dependency_free_suffix("tmp", "a tmp\nb tmp\nc"), "c");
}

#[test]
fn metadata_failures() {
    assert_eq!(metadata_failure(true, true, "error: boom"), MetadataFailure::Propagate);
    assert_eq!(metadata_failure(false, false, "error: boom"), MetadataFailure::Quiet);
    assert_eq!(metadata_failure(false, true, ""), MetadataFailure::Quiet);
    assert_eq!(
        metadata_failure(
            false,
            true,
            "error: could not find `Cargo.toml` in `/tmp` or any parent directory\n"
        ),
        MetadataFailure::Quiet
    );
    assert_eq!(
        metadata_failure(false, true, "error: failed to parse manifest\r\nmore\n"),
        MetadataFailure::Warn("failed to parse manifest".to_owned())
    );
    assert_eq!(
        metadata_failure(false, true, "warning: odd\n"),
        MetadataFailure::Warn("warning: odd".to_owned())
    );
}

#[test]
fn accessed_checkouts() {
    let packages = vec![
        MetadataEntry {
            name: "other".to_owned(),
            location: ManifestLocation::NoParent,
        },
        MetadataEntry {
            name: "tmpdep".to_owned(),
            location: ManifestLocation::Grandparent("/home/u/.cargo/git/checkouts/dylint-1/abc".to_owned()),
        },
    ];
    let accessed = accessed_by_metadata("tmpdep", &packages).unwrap();
    assert_eq!(accessed, vec!["/home/u/.cargo/git/checkouts/dylint-1/abc".to_owned()]);
    assert_eq!(pick_accessed(accessed, &vec![]).unwrap(), "/home/u/.cargo/git/checkouts/dylint-1/abc");

    let broken = vec![MetadataEntry { name: "tmpdep".to_owned(), location: ManifestLocation::NoGrandparent }];
    assert!(matches!(accessed_by_metadata("tmpdep", &broken), Err(AccessedError::NoGrandparent)));
}

#[test]
fn fresh_checkout_is_the_one_not_injected() {
    let subdirs = vec![
        Subdir { name: "abc".to_owned(), path: "/c/abc".to_owned(), injected: true },
        Subdir { name: "def".to_owned(), path: "/c/def".to_owned(), injected: false },
    ];
    assert_eq!(pick_accessed(vec![], &subdirs).unwrap(), "/c/def");
    assert!(matches!(pick_accessed(vec![], &vec![]), Err(AccessedError::NotDetermined)));
    match pick_accessed(vec!["/a".to_owned(), "/b".to_owned()], &subdirs) {
        Err(AccessedError::Multiple(v)) => assert_eq!(v, vec!["/a".to_owned(), "/b".to_owned()]),
        other => panic!("unexpected: {other:?}"),
    }
}

use dylint::library::{matched_library_paths, MatchError};
use dylint::template::fill_in_replacements;

#[test]
fn matched_paths_of_patterns() {
    let patterns = vec!["examples/general".to_owned(), "examples/restriction/*".to_owned()];
    let matched = vec![
        vec!["/ck/examples/general".to_owned()],
        vec!["/ck/examples/restriction/a".to_owned(), "/ck/examples/restriction/b".to_owned()],
    ];
    assert_eq!(
        matched_library_paths(true, &patterns, "/ck", &matched).unwrap(),
        vec![
            "/ck/examples/general".to_owned(),
            "/ck/examples/restriction/a".to_owned(),
            "/ck/examples/restriction/b".to_owned()
        ]
    );
}

#[test]
fn matched_paths_must_stay_in_the_root() {
    let patterns = vec!["../*".to_owned()];
    let matched = vec![vec!["/ck/a".to_owned(), "/other/b".to_owned()]];
    match matched_library_paths(true, &patterns, "/ck", &matched) {
        Err(MatchError::Outside { pattern, path, root }) => {
            assert_eq!(pattern, "../*");
            assert_eq!(path, "/other/b");
            assert_eq!(root, "/ck");
        }
        other => panic!("unexpected: {other:?}"),
    }
    // Components, not characters, are compared.
    let matched = vec![vec!["/ckx/a".to_owned()]];
    assert!(matches!(
        matched_library_paths(true, &patterns, "/ck", &matched),
        Err(MatchError::Outside { .. })
    ));
    // Matches and the root are normalized before they are compared.
    let matched = vec![vec!["/ck/../x".to_owned()]];
    match matched_library_paths(true, &patterns, "/ck/./", &matched) {
        Err(MatchError::Outside { path, root, .. }) => {
            assert_eq!(path, "/x");
            assert_eq!(root, "/ck");
        }
        other => panic!("unexpected: {other:?}"),
    }
    let matched = vec![vec!["/ck/./a/".to_owned(), "/ck/b/../c".to_owned()]];
    assert_eq!(
        matched_library_paths(true, &vec!["*".to_owned()], "/ck", &matched).unwrap(),
        vec!["/ck/a".to_owned(), "/ck/c".to_owned()]
    );
    // Without a pattern, the root itself is matched and not checked.
    let matched = vec![vec!["/elsewhere".to_owned()]];
    assert!(matched_library_paths(false, &vec![String::new()], "/ck", &matched).is_ok());
}

#[test]
fn patterns_must_match() {
    let patterns = vec!["a".to_owned(), "b".to_owned()];
    let matched = vec![vec!["/ck/a".to_owned()], vec![]];
    assert!(matches!(
        matched_library_paths(true, &patterns, "/ck", &matched),
        Err(MatchError::NoMatch { ref pattern }) if pattern == "b"
    ));
    assert!(matches!(
        matched_library_paths(false, &vec![String::new()], "/ck/*", &vec![vec![]]),
        Err(MatchError::NoPackages { ref root }) if root == "/ck/*"
    ));
}

#[test]
fn template_names() {
    assert_eq!(
        fill_in_replacements("my_lint"),
        vec![
            ("\\bfill_me_in\\b".to_owned(), "my_lint".to_owned()),
            ("\\bFILL_ME_IN\\b".to_owned(), "MY_LINT".to_owned()),
            ("\\bfill-me-in\\b".to_owned(), "my-lint".to_owned()),
            ("\\bFillMeIn\\b".to_owned(), "MyLint".to_owned()),
        ]
    );
    assert_eq!(fill_in_replacements("FooBar")[0].1, "foo_bar");
}

use dylint::listing::library_listing;

#[test]
fn listing_in_columns() {
    let found = vec![
        (
            "clippy".to_owned(),
            vec![("nightly-2024-01-01".to_owned(), vec!["/a".to_owned(), "/b".to_owned()])],
        ),
        ("lint".to_owned(), vec![("stable".to_owned(), vec!["<unbuilt>".to_owned()])]),
    ];
    let lines = library_listing(&found);
    let expected: Vec<String> = [
        ("clippy", "nightly-2024-01-01", "/a"),
        ("clippy", "nightly-2024-01-01", "/b"),
        ("lint", "stable", "<unbuilt>"),
    ]
    .iter()
    .map(|(n, t, l)| format!("{n:<6}  {t:<18}  {l}"))
    .collect();
    assert_eq!(lines, expected);
    assert_eq!(lines[2], "lint    stable              <unbuilt>");
    assert!(library_listing(&vec![]).is_empty());
}

use dylint::listing::lints_heading;

#[test]
fn lint_headings() {
    assert_eq!(lints_heading("clippy", "nightly", 1, 1, None), "clippy");
    assert_eq!(lints_heading("clippy", "nightly", 2, 1, None), "clippy@nightly");
    assert_eq!(lints_heading("clippy", "nightly", 1, 2, Some("target/release")), "clippy (target/release)");
    assert_eq!(
        lints_heading("clippy", "nightly", 3, 2, Some("a")),
        "clippy@nightly (a)"
    );
}

#[test]
fn libraries_from_one_file_are_kept() {
    assert_eq!(
        combined_library_packages(vec![1, 2], vec![]).unwrap(),
        vec![1, 2]
    );
    assert_eq!(
        combined_library_packages(Vec::<u8>::new(), vec![3]).unwrap(),
        vec![3]
    );
    assert!(combined_library_packages(Vec::<u8>::new(), Vec::new()).unwrap().is_empty());
}

#[test]
fn libraries_in_both_files_are_refused() {
    let error = combined_library_packages(vec![1], vec![2]).unwrap_err();
    assert_eq!(
        error.message(),
        "`workspace.metadata.dylint.libraries` cannot appear in both Cargo.toml and dylint.toml"
    );
}

#[test]
fn unknown_dylint_metadata_keys() {
    let keys = |ks: &[&str]| ks.iter().map(|k| (*k).to_owned()).collect::<Vec<_>>();
    assert_eq!(first_unknown_key(&keys(&["libraries"])), None);
    assert_eq!(first_unknown_key(&keys(&[])), None);
    assert_eq!(first_unknown_key(&keys(&["libraries", "librarie"])), Some(1));
    assert_eq!(first_unknown_key(&keys(&["extra", "libraries"])), Some(0));
}

#[test]
fn git_roots_are_looked_for_twice() {
    let mut errors = Vec::new();
    assert!(matches!(
        root_attempt(0, Err(AccessedError::NotDetermined), &mut errors),
        AttemptStep::Retry
    ));
    assert!(matches!(
        root_attempt(1, Err(AccessedError::NoParent), &mut errors),
        AttemptStep::GiveUp
    ));
    assert_eq!(errors.len(), 2);
    match root_attempt(1, Ok("/c/checkouts/x/abc".to_owned()), &mut errors) {
        AttemptStep::Found(p) => assert_eq!(p, "/c/checkouts/x/abc"),
        other => panic!("unexpected: {other:?}"),
    }
    assert_eq!(errors.len(), 2);
}

#[test]
fn dylint_metadata_keys() {
    let keys = |ks: &[&str]| ks.iter().map(|k| (*k).to_owned()).collect::<Vec<_>>();
    assert!(matches!(dylint_metadata_libraries(false, &keys(&[])), Err(MetadataError::NotATable)));
    assert_eq!(dylint_metadata_libraries(true, &keys(&[])).unwrap(), None);
    assert_eq!(dylint_metadata_libraries(true, &keys(&["libraries"])).unwrap(), Some(0));
    match dylint_metadata_libraries(true, &keys(&["libraries", "zzz"])) {
        Err(error @ MetadataError::UnknownKey { .. }) => {
            assert!(matches!(error, MetadataError::UnknownKey { libraries_before: Some(0), .. }));
            assert_eq!(error.message(false), "Unknown key `zzz`");
        }
        other => panic!("unexpected: {other:?}"),
    }
    assert_eq!(MetadataError::NotATable.message(true), "`dylint` value must be a table");
    assert_eq!(MetadataError::NotATable.message(false), "`dylint` value must be a map");
}
