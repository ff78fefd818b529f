use dylint::opts::{Check, Dylint, LibrarySelection, List, New, Operation, Upgrade};
use dylint::run::{
    after_check, check_args, check_command, check_failed_message, finish, prepare_options, run_plan,
    Plan,
};

fn selection() -> LibrarySelection {
    LibrarySelection::default()
}

fn check_with(lib_sel: LibrarySelection) -> Dylint {
    Dylint {
        operation: Operation::Check(Check { lib_sel, ..Check::default() }),
        ..Dylint::default()
    }
}

#[test]
fn defaults_select_nothing() {
    let opts = Dylint::default();
    assert!(!opts.quiet);
    assert!(opts.pipe_stderr.is_none() && opts.pipe_stdout.is_none());
    assert!(opts.has_library_selection());
    let sel = opts.library_selection();
    assert!(!sel.all && sel.libs.is_empty() && sel.paths.is_empty() && sel.git.is_none());
    assert!(!opts.git_or_path());
}

#[test]
fn new_and_upgrade_carry_no_selection() {
    let opts = Dylint { operation: Operation::New(New::default()), ..Dylint::default() };
    assert!(!opts.has_library_selection());
    let sel = opts.library_selection();
    assert!(!sel.all && sel.libs.is_empty() && sel.paths.is_empty() && sel.git.is_none());
    assert!(!opts.git_or_path());
    let opts = Dylint { operation: Operation::Upgrade(Upgrade::default()), ..Dylint::default() };
    let sel = opts.library_selection();
    assert!(sel.lib_paths.is_empty() && sel.pattern.is_none() && !sel.no_build);
}

#[test]
fn git_or_path_detects_either() {
    let mut sel = selection();
    assert!(!sel.git_or_path());
    sel.git = Some("https://github.com/trailofbits/dylint".to_owned());
    assert!(sel.git_or_path());
    let mut sel = selection();
    sel.paths.push("examples".to_owned());
    assert!(sel.git_or_path());
}

#[test]
fn library_selection_mut_changes_only_the_selection() {
    let mut opts = Dylint {
        quiet: true,
        operation: Operation::List(List::default()),
        ..Dylint::default()
    };
    opts.library_selection_mut().all = true;
    assert!(opts.quiet);
    assert!(opts.library_selection().all);
}

#[test]
fn git_implies_all() {
    let mut sel = selection();
    sel.git = Some("https://github.com/trailofbits/dylint".to_owned());
    let (warnings, result) = prepare_options(&check_with(sel), &vec![]);
    assert!(warnings.is_empty());
    let opts = result.unwrap();
    assert!(opts.library_selection().all);
}

#[test]
fn path_to_a_directory_implies_all() {
    let mut sel = selection();
    sel.paths.push("examples/general".to_owned());
    let (warnings, result) = prepare_options(&check_with(sel), &vec![false]);
    assert!(warnings.is_empty());
    let opts = result.unwrap();
    let sel = opts.library_selection();
    assert!(sel.all);
    assert_eq!(sel.paths, vec!["examples/general".to_owned()]);
    assert!(sel.lib_paths.is_empty());
}

#[test]
fn path_to_a_file_moves_to_lib_paths_with_a_warning() {
    let mut sel = selection();
    sel.lib_paths.push("a.so".to_owned());
    sel.paths.push("dir".to_owned());
    sel.paths.push("libfoo@nightly.so".to_owned());
    let (warnings, result) = prepare_options(&check_with(sel), &vec![false, true]);
    assert_eq!(
        warnings,
        vec!["Referring to libraries with `--path` is deprecated. Use `--lib-path`.".to_owned()]
    );
    let opts = result.unwrap();
    let sel = opts.library_selection();
    assert_eq!(
        sel.lib_paths,
        vec!["a.so".to_owned(), "dir".to_owned(), "libfoo@nightly.so".to_owned()]
    );
    assert!(sel.paths.is_empty());
    assert!(!sel.all);
}

#[test]
fn pattern_without_git_or_path_is_refused() {
    let mut sel = selection();
    sel.pattern = Some("examples/*".to_owned());
    let opts = Dylint { pipe_stderr: Some("err.txt".to_owned()), ..check_with(sel) };
    let (warnings, result) = prepare_options(&opts, &vec![]);
    assert!(result.is_err());
    assert!(warnings.is_empty());
}

#[test]
fn pipes_are_experimental() {
    let opts = Dylint {
        pipe_stderr: Some("err.txt".to_owned()),
        pipe_stdout: Some("out.txt".to_owned()),
        ..Dylint::default()
    };
    let (warnings, result) = prepare_options(&opts, &vec![]);
    assert!(result.is_ok());
    assert_eq!(
        warnings,
        vec![
            "`--pipe-stderr` is experimental".to_owned(),
            "`--pipe-stdout` is experimental".to_owned()
        ]
    );
}

#[test]
fn upgrade_options_pass_through() {
    let opts = Dylint {
        operation: Operation::Upgrade(Upgrade {
            allow_downgrade: true,
            rust_version: Some("1.65.0".to_owned()),
            auto_correct: true,
            path: None,
        }),
        ..Dylint::default()
    };
    let (warnings, result) = prepare_options(&opts, &vec![]);
    assert!(warnings.is_empty());
    match result.unwrap().operation {
        Operation::Upgrade(u) => {
            assert!(u.allow_downgrade && u.auto_correct);
            assert_eq!(u.rust_version.as_deref(), Some("1.65.0"));
        }
        _ => panic!("operation changed"),
    }
}

#[test]
fn nothing_selected_plans() {
    assert_eq!(run_plan(&Dylint::default()), Plan::NothingToDo);
    let list = Dylint { operation: Operation::List(List::default()), ..Dylint::default() };
    assert_eq!(run_plan(&list), Plan::ListLibraries);
    let mut sel = selection();
    sel.all = true;
    assert_eq!(run_plan(&check_with(sel)), Plan::Resolve);
    let mut sel = selection();
    sel.libs.push("clippy".to_owned());
    assert_eq!(run_plan(&check_with(sel)), Plan::Resolve);
}

#[test]
fn check_arguments_in_order() {
    let mut check = Check::default();
    check.lib_sel.manifest_path = Some("ws/Cargo.toml".to_owned());
    check.packages = vec!["a".to_owned(), "b".to_owned()];
    check.workspace = true;
    check.args = vec!["--".to_owned(), "-D".to_owned(), "warnings".to_owned()];
    assert_eq!(
        check_args("target/dylint/target/nightly", &check),
        vec![
            "--target-dir",
            "target/dylint/target/nightly",
            "--manifest-path",
            "ws/Cargo.toml",
            "-p",
            "a",
            "-p",
            "b",
            "--workspace",
            "--",
            "-D",
            "warnings"
        ]
    );
    assert_eq!(check_args("t", &Check::default()), vec!["--target-dir", "t"]);
}

#[test]
fn failed_check_stops_unless_keep_going() {
    let mut failures = Vec::new();
    assert!(!after_check(false, "nightly", true, &mut failures));
    assert!(failures.is_empty());
    assert!(after_check(false, "nightly", false, &mut failures));
    assert!(failures.is_empty());
    assert!(!after_check(true, "nightly-2024-01-01", false, &mut failures));
    assert!(!after_check(true, "stable", false, &mut failures));
    assert_eq!(failures, vec!["nightly-2024-01-01".to_owned(), "stable".to_owned()]);
}

#[test]
fn check_command_for_a_toolchain() {
    let mut check = Check::default();
    check.no_deps = true;
    let paths = vec!["/l/liba@nightly.so".to_owned(), "/l/lib\"b@nightly.so".to_owned()];
    let command = check_command(&check, "nightly", "t", &paths, "/d/driver", "null", "null");
    assert_eq!(command.subcommand, "check");
    assert_eq!(command.args, vec!["--target-dir", "t"]);
    let envs: Vec<(&str, &str)> =
        command.envs.iter().map(|(k, v)| (k.as_str(), v.as_str())).collect();
    assert_eq!(
        envs,
        vec![
            ("CLIPPY_DISABLE_DOCS_LINKS", "null"),
            ("DYLINT_LIBS", "[\"/l/liba@nightly.so\",\"/l/lib\\\"b@nightly.so\"]"),
            ("DYLINT_METADATA", "null"),
            ("DYLINT_NO_DEPS", "1"),
            ("RUSTC_WORKSPACE_WRAPPER", "/d/driver"),
            ("RUSTUP_TOOLCHAIN", "nightly"),
        ]
    );
    check.fix = true;
    let command = check_command(&check, "nightly", "t", &vec![], "d", "null", "null");
    assert_eq!(command.subcommand, "fix");
    assert_eq!(command.envs[1].1, "[]");
}

#[test]
fn run_outcome_names_failed_toolchains() {
    assert!(finish(&vec![]).is_ok());
    assert_eq!(
        finish(&vec!["nightly-2024-01-01".to_owned(), "stable".to_owned()]).unwrap_err(),
        "Compilation failed with the following toolchains: [\"nightly-2024-01-01\", \"stable\"]"
    );
    assert_eq!(
        check_failed_message("nightly"),
        "Compilation failed with toolchain `nightly`"
    );
}

#[test]
fn deprecated_paths_select_what_lib_paths_select() {
    let mut by_path = selection();
    by_path.paths = vec!["dir".to_owned(), "libfoo@nightly.so".to_owned()];
    let mut by_lib_path = selection();
    by_lib_path.lib_paths = vec!["dir".to_owned(), "libfoo@nightly.so".to_owned()];
    let (warnings1, result1) = prepare_options(&check_with(by_path), &vec![false, true]);
    let (warnings2, result2) = prepare_options(&check_with(by_lib_path), &vec![]);
    assert_eq!(warnings1.len(), 1);
    assert!(warnings2.is_empty());
    let (opts1, opts2) = (result1.unwrap(), result2.unwrap());
    let (s1, s2) = (opts1.library_selection(), opts2.library_selection());
    assert_eq!(s1.lib_paths, s2.lib_paths);
    assert_eq!(s1.paths, s2.paths);
    assert_eq!(s1.all, s2.all);
    assert_eq!(run_plan(&opts1), run_plan(&opts2));
}
