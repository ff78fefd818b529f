//! What `run` decides before it loads or builds anything: how the options are normalized, which
//! warnings are due, what to do with the selected libraries, the `cargo check` arguments for a
//! toolchain, and when a failed check ends the run.

use vstd::prelude::*;
use crate::opts::{selection_of, spec_git_or_path, Check, Dylint, LibrarySelection, List, New, Operation, Upgrade};
use crate::text::{append_str, copy_opt, copy_string, copy_strings};
use crate::dependency::{json_quote, json_string};

verus! {

/// The warning for libraries named with `--path`.
pub open spec fn path_deprecation_warning() -> Seq<char> {
    "Referring to libraries with `--path` is deprecated. Use `--lib-path`."@
}

/// The warning for `--pipe-stderr`.
pub open spec fn pipe_stderr_warning() -> Seq<char> {
    "`--pipe-stderr` is experimental"@
}

/// The warning for `--pipe-stdout`.
pub open spec fn pipe_stdout_warning() -> Seq<char> {
    "`--pipe-stdout` is experimental"@
}

/// Some of the paths given with `--path` are files.
pub open spec fn some_file(files: Seq<bool>) -> bool {
    exists|i: int| 0 <= i < files.len() && files[i]
}

/// `b` is the selection `a` once normalized, where `files` tells which of its `--path` entries
/// are files: if any is, they all move to the `--lib-path` entries (with a warning); then `--git`
/// or a remaining `--path` implies `--all`.
pub open spec fn normalized(a: LibrarySelection, files: Seq<bool>, b: LibrarySelection) -> bool {
    let moved = some_file(files);
    &&& b.lib_paths@ == (if moved {
        a.lib_paths@ + a.paths@
    } else {
        a.lib_paths@
    })
    &&& b.paths@ == (if moved {
        Seq::<String>::empty()
    } else {
        a.paths@
    })
    &&& b.all == (a.all || a.git is Some || (!moved && a.paths@.len() > 0))
    &&& b.branch == a.branch
    &&& b.git == a.git
    &&& b.libs@ == a.libs@
    &&& b.manifest_path == a.manifest_path
    &&& b.no_build == a.no_build
    &&& b.no_metadata == a.no_metadata
    &&& b.pattern == a.pattern
    &&& b.rev == a.rev
    &&& b.tag == a.tag
}

/// `b` is the operation `a` with its selection (where it has one) normalized.
pub open spec fn operation_normalized(a: Operation, files: Seq<bool>, b: Operation) -> bool {
    match (a, b) {
        (Operation::Check(x), Operation::Check(y)) => {
            &&& normalized(x.lib_sel, files, y.lib_sel)
            &&& y.fix == x.fix
            &&& y.keep_going == x.keep_going
            &&& y.no_deps == x.no_deps
            &&& y.packages@ == x.packages@
            &&& y.workspace == x.workspace
            &&& y.args@ == x.args@
        },
        (Operation::List(x), Operation::List(y)) => normalized(x.lib_sel, files, y.lib_sel),
        (Operation::New(x), Operation::New(y)) => y.isolate == x.isolate && y.path@ == x.path@,
        (Operation::Upgrade(x), Operation::Upgrade(y)) => {
            &&& y.allow_downgrade == x.allow_downgrade
            &&& y.rust_version == x.rust_version
            &&& y.auto_correct == x.auto_correct
            &&& y.path == x.path
        },
        _ => false,
    }
}

/// `m` is the selection `a` with its `--path` entries given as `--lib-path` entries instead.
pub open spec fn paths_as_lib_paths(a: LibrarySelection, m: LibrarySelection) -> bool {
    &&& m.lib_paths@ == a.lib_paths@ + a.paths@
    &&& m.paths@.len() == 0
    &&& m.all == a.all
    &&& m.branch == a.branch
    &&& m.git == a.git
    &&& m.libs@ == a.libs@
    &&& m.manifest_path == a.manifest_path
    &&& m.no_build == a.no_build
    &&& m.no_metadata == a.no_metadata
    &&& m.pattern == a.pattern
    &&& m.rev == a.rev
    &&& m.tag == a.tag
}

/// Two selections select the same.
pub open spec fn same_selection(a: LibrarySelection, b: LibrarySelection) -> bool {
    &&& a.lib_paths@ == b.lib_paths@
    &&& a.paths@ == b.paths@
    &&& a.all == b.all
    &&& a.branch == b.branch
    &&& a.git == b.git
    &&& a.libs@ == b.libs@
    &&& a.manifest_path == b.manifest_path
    &&& a.no_build == b.no_build
    &&& a.no_metadata == b.no_metadata
    &&& a.pattern == b.pattern
    &&& a.rev == b.rev
    &&& a.tag == b.tag
}

/// Naming libraries with `--path`, where one of the paths is a file, selects what naming the same
/// paths with `--lib-path` selects (the first also draws the deprecation warning, see
/// [`prepare_options`]): both normalize to the same selection.
pub proof fn lemma_path_is_lib_path(
    a: LibrarySelection,
    files: Seq<bool>,
    m: LibrarySelection,
    b1: LibrarySelection,
    b2: LibrarySelection,
)
    requires
        files.len() == a.paths@.len(),
        some_file(files),
        paths_as_lib_paths(a, m),
        normalized(a, files, b1),
        normalized(m, Seq::<bool>::empty(), b2),
    ensures
        same_selection(b1, b2),
{
    assert(!some_file(Seq::<bool>::empty()));
    assert(m.paths@ =~= Seq::<String>::empty());
    assert(b1.paths@ =~= b2.paths@);
}

/// `--pattern` was given without `--git` or `--path`.
#[derive(Debug)]
pub struct PatternWithoutSource;

fn normalize_selection(sel: &LibrarySelection, files: &Vec<bool>) -> (r: (LibrarySelection, bool))
    requires
        files@.len() == sel.paths@.len(),
    ensures
        normalized(*sel, files@, r.0),
        r.1 == some_file(files@),
{
    let mut moved = false;
    let mut i: usize = 0;
    while i < files.len()
        invariant
            i <= files@.len(),
            moved == exists|j: int| 0 <= j < i && files@[j],
        decreases files@.len() - i,
    {
        if files[i] {
            moved = true;
        }
        i = i + 1;
    }
    let mut lib_paths = copy_strings(&sel.lib_paths);
    let paths = if moved {
        let mut extra = copy_strings(&sel.paths);
        lib_paths.append(&mut extra);
        Vec::new()
    } else {
        copy_strings(&sel.paths)
    };
    let all = sel.all || sel.git.is_some() || paths.len() > 0;
    let b = LibrarySelection {
        all,
        branch: copy_opt(&sel.branch),
        git: copy_opt(&sel.git),
        lib_paths,
        libs: copy_strings(&sel.libs),
        manifest_path: copy_opt(&sel.manifest_path),
        no_build: sel.no_build,
        no_metadata: sel.no_metadata,
        paths,
        pattern: copy_opt(&sel.pattern),
        rev: copy_opt(&sel.rev),
        tag: copy_opt(&sel.tag),
    };
    (b, moved)
}

/// Normalizes the options as `run` does before anything else, where `paths_are_files` tells which
/// `--path` entries are files: for `check` and `list`, `--path` entries move to `--lib-path` where
/// any of them is a file, and `--git` or `--path` implies `--all`. Returns the warnings due (the
/// move, then `--pipe-stderr` and `--pipe-stdout`) and the options, or the error for `--pattern`
/// without `--git` or `--path` (after only the first warning).
pub fn prepare_options(opts: &Dylint, paths_are_files: &Vec<bool>) -> (r: (
    Vec<String>,
    Result<Dylint, PatternWithoutSource>,
))
    requires
        selection_of(opts.operation) matches Some(sel) ==> paths_are_files@.len() == sel.paths@.len(),
    ensures
        ({
            let moved = selection_of(opts.operation) is Some && some_file(paths_are_files@);
            let first = if moved {
                seq![path_deprecation_warning()]
            } else {
                Seq::<Seq<char>>::empty()
            };
            let pipes = (if opts.pipe_stderr is Some {
                seq![pipe_stderr_warning()]
            } else {
                Seq::<Seq<char>>::empty()
            }) + (if opts.pipe_stdout is Some {
                seq![pipe_stdout_warning()]
            } else {
                Seq::<Seq<char>>::empty()
            });
            match r.1 {
                Ok(d) => {
                    &&& crate::dependency::strings_view(r.0@) == first + pipes
                    &&& operation_normalized(opts.operation, paths_are_files@, d.operation)
                    &&& d.pipe_stderr == opts.pipe_stderr
                    &&& d.pipe_stdout == opts.pipe_stdout
                    &&& d.quiet == opts.quiet
                    &&& !(selection_of(d.operation) matches Some(s) && s.pattern is Some
                        && !spec_git_or_path(s))
                },
                Err(_) => {
                    &&& crate::dependency::strings_view(r.0@) == first
                    &&& exists|d: Operation|
                        operation_normalized(opts.operation, paths_are_files@, d) && (
                        #[trigger] selection_of(d) matches Some(s) && s.pattern is Some
                            && !spec_git_or_path(s))
                },
            }
        }),
{
    let mut warnings: Vec<String> = Vec::new();
    let operation = match &opts.operation {
        Operation::Check(c) => {
            let (lib_sel, moved) = normalize_selection(&c.lib_sel, paths_are_files);
            if moved {
                warnings.push("Referring to libraries with `--path` is deprecated. Use `--lib-path`.".to_owned());
                assert(crate::dependency::strings_view(warnings@) =~= seq![path_deprecation_warning()]);
            } else {
                assert(crate::dependency::strings_view(warnings@) =~= Seq::<Seq<char>>::empty());
            }
            Operation::Check(Check {
                lib_sel,
                fix: c.fix,
                keep_going: c.keep_going,
                no_deps: c.no_deps,
                packages: copy_strings(&c.packages),
                workspace: c.workspace,
                args: copy_strings(&c.args),
            })
        },
        Operation::List(l) => {
            let (lib_sel, moved) = normalize_selection(&l.lib_sel, paths_are_files);
            if moved {
                warnings.push("Referring to libraries with `--path` is deprecated. Use `--lib-path`.".to_owned());
                assert(crate::dependency::strings_view(warnings@) =~= seq![path_deprecation_warning()]);
            } else {
                assert(crate::dependency::strings_view(warnings@) =~= Seq::<Seq<char>>::empty());
            }
            Operation::List(List { lib_sel })
        },
        Operation::New(n) => {
            assert(crate::dependency::strings_view(warnings@) =~= Seq::<Seq<char>>::empty());
            Operation::New(New { isolate: n.isolate, path: copy_string(&n.path) })
        },
        Operation::Upgrade(u) => {
            assert(crate::dependency::strings_view(warnings@) =~= Seq::<Seq<char>>::empty());
            Operation::Upgrade(
                Upgrade {
                    allow_downgrade: u.allow_downgrade,
                    rust_version: copy_opt(&u.rust_version),
                    auto_correct: u.auto_correct,
                    path: copy_opt(&u.path),
                },
            )
        },
    };
    let ghost first = crate::dependency::strings_view(warnings@);
    assert(operation_normalized(opts.operation, paths_are_files@, operation));
    assert(first == (if selection_of(opts.operation) is Some && some_file(paths_are_files@) {
        seq![path_deprecation_warning()]
    } else {
        Seq::<Seq<char>>::empty()
    }));
    let bad = match &operation {
        Operation::Check(c) => c.lib_sel.pattern.is_some() && !c.lib_sel.git_or_path(),
        Operation::List(l) => l.lib_sel.pattern.is_some() && !l.lib_sel.git_or_path(),
        _ => false,
    };
    if bad {
        assert(selection_of(operation) matches Some(s) && s.pattern is Some && !spec_git_or_path(s));
        return (warnings, Err(PatternWithoutSource));
    }
    if opts.pipe_stderr.is_some() {
        warnings.push("`--pipe-stderr` is experimental".to_owned());
    }
    let ghost second = crate::dependency::strings_view(warnings@);
    if opts.pipe_stdout.is_some() {
        warnings.push("`--pipe-stdout` is experimental".to_owned());
    }
    proof {
        let pe = if opts.pipe_stderr is Some {
            seq![pipe_stderr_warning()]
        } else {
            Seq::<Seq<char>>::empty()
        };
        let po = if opts.pipe_stdout is Some {
            seq![pipe_stdout_warning()]
        } else {
            Seq::<Seq<char>>::empty()
        };
        assert(second =~= first + pe);
        assert(crate::dependency::strings_view(warnings@) =~= first + (pe + po));
    }
    (
        warnings,
        Ok(
            Dylint {
                pipe_stderr: copy_opt(&opts.pipe_stderr),
                pipe_stdout: copy_opt(&opts.pipe_stdout),
                quiet: opts.quiet,
                operation,
            },
        ),
    )
}

/// What to do with the selected libraries.
#[derive(Debug, PartialEq, Eq, Structural)]
pub enum Plan {
    /// `list` with nothing selected: list the libraries that were found.
    ListLibraries,
    /// `check` with nothing selected: warn that there is nothing to do.
    NothingToDo,
    /// Resolve the selection to libraries, then check or list them.
    Resolve,
}

/// What to do with the selection: where no library is named (by name or path) and `--all` was
/// not given, `list` lists the libraries found and `check` has nothing to do; else the selection
/// is resolved.
pub fn run_plan(opts: &Dylint) -> (r: Plan)
    requires
        selection_of(opts.operation) is Some,
    ensures
        ({
            let s = selection_of(opts.operation).unwrap();
            if s.libs@.len() == 0 && s.lib_paths@.len() == 0 && !s.all {
                r == (if opts.operation is List {
                    Plan::ListLibraries
                } else {
                    Plan::NothingToDo
                })
            } else {
                r == Plan::Resolve
            }
        }),
{
    let sel = opts.library_selection();
    if sel.libs.len() == 0 && sel.lib_paths.len() == 0 && !sel.all {
        if let Operation::List(_) = &opts.operation {
            Plan::ListLibraries
        } else {
            Plan::NothingToDo
        }
    } else {
        Plan::Resolve
    }
}

/// A `-p` argument for each package.
pub open spec fn package_args(ps: Seq<String>) -> Seq<Seq<char>>
    decreases ps.len(),
{
    if ps.len() == 0 {
        Seq::empty()
    } else {
        package_args(ps.drop_last()) + seq!["-p"@, ps.last()@]
    }
}

/// The arguments of `cargo check` (or `fix`) for one toolchain: the target directory, the
/// manifest path where one was given, a `-p` for each package, `--workspace` where it was given,
/// then the extra arguments.
pub open spec fn check_args_text(target_dir: Seq<char>, c: Check) -> Seq<Seq<char>> {
    seq!["--target-dir"@, target_dir] + (match c.lib_sel.manifest_path {
        Some(p) => seq!["--manifest-path"@, p@],
        None => Seq::empty(),
    }) + package_args(c.packages@) + (if c.workspace {
        seq!["--workspace"@]
    } else {
        Seq::empty()
    }) + crate::dependency::strings_view(c.args@)
}

/// The arguments of `cargo check` (or `fix`) for one toolchain (see [`check_args_text`]).
pub fn check_args(target_dir: &str, check: &Check) -> (r: Vec<String>)
    ensures
        crate::dependency::strings_view(r@) == check_args_text(target_dir@, *check),
{
    let mut args: Vec<String> = Vec::new();
    args.push("--target-dir".to_owned());
    args.push(target_dir.to_owned());
    let ghost a0 = crate::dependency::strings_view(args@);
    assert(a0 =~= seq!["--target-dir"@, target_dir@]);
    if let Some(path) = &check.lib_sel.manifest_path {
        args.push("--manifest-path".to_owned());
        args.push(path.clone());
    }
    let ghost a1 = crate::dependency::strings_view(args@);
    assert(a1 =~= a0 + match check.lib_sel.manifest_path {
        Some(p) => seq!["--manifest-path"@, p@],
        None => Seq::<Seq<char>>::empty(),
    });
    let mut i: usize = 0;
    assert(check.packages@.take(0) =~= Seq::<String>::empty());
    assert(a1 =~= a1 + package_args(check.packages@.take(0)));
    while i < check.packages.len()
        invariant
            i <= check.packages@.len(),
            crate::dependency::strings_view(args@) == a1 + package_args(check.packages@.take(i as int)),
        decreases check.packages@.len() - i,
    {
        let ghost prev = crate::dependency::strings_view(args@);
        let p = check.packages[i].clone();
        args.push("-p".to_owned());
        args.push(p);
        assert(check.packages@.take(i + 1).drop_last() =~= check.packages@.take(i as int));
        assert(check.packages@.take(i + 1).last() == check.packages@[i as int]);
        assert(crate::dependency::strings_view(args@) =~= prev + seq!["-p"@, check.packages@[i as int]@]);
        assert(crate::dependency::strings_view(args@) =~= a1 + package_args(check.packages@.take(i + 1)));
        i = i + 1;
    }
    assert(check.packages@.take(check.packages@.len() as int) =~= check.packages@);
    let ghost a2 = crate::dependency::strings_view(args@);
    if check.workspace {
        args.push("--workspace".to_owned());
    }
    let ghost a3 = crate::dependency::strings_view(args@);
    assert(a3 =~= a2 + if check.workspace {
        seq!["--workspace"@]
    } else {
        Seq::<Seq<char>>::empty()
    });
    let mut j: usize = 0;
    while j < check.args.len()
        invariant
            j <= check.args@.len(),
            crate::dependency::strings_view(args@) == a3 + crate::dependency::strings_view(
                check.args@.take(j as int),
            ),
        decreases check.args@.len() - j,
    {
        let ghost prev = crate::dependency::strings_view(args@);
        let a = check.args[j].clone();
        args.push(a);
        assert(crate::dependency::strings_view(args@) =~= prev.push(check.args@[j as int]@));
        assert(crate::dependency::strings_view(check.args@.take(j + 1)) =~= crate::dependency::strings_view(
            check.args@.take(j as int),
        ).push(check.args@[j as int]@));
        j = j + 1;
        assert(crate::dependency::strings_view(args@) =~= a3 + crate::dependency::strings_view(
            check.args@.take(j as int),
        ));
    }
    assert(check.args@.take(check.args@.len() as int) =~= check.args@);
    args
}

/// Records the outcome of checking with one toolchain: a failure ends the run unless
/// `keep_going` was given, in which case the toolchain joins the failures. Returns whether the run
/// ends here.
pub fn after_check(keep_going: bool, toolchain: &str, succeeded: bool, failures: &mut Vec<String>) -> (stop: bool)
    ensures
        stop == (!succeeded && !keep_going),
        crate::dependency::strings_view(final(failures)@) == if !succeeded && keep_going {
            crate::dependency::strings_view(old(failures)@).push(toolchain@)
        } else {
            crate::dependency::strings_view(old(failures)@)
        },
{
    if succeeded {
        return false;
    }
    if !keep_going {
        return true;
    }
    failures.push(toolchain.to_owned());
    assert(crate::dependency::strings_view(failures@) =~= crate::dependency::strings_view(old(failures)@).push(toolchain@));
    false
}


/// The items of a JSON array of strings, each rendered by [`json_string`], separated by commas.
pub open spec fn json_items(ss: Seq<Seq<char>>) -> Seq<char>
    decreases ss.len(),
{
    if ss.len() == 0 {
        Seq::empty()
    } else if ss.len() == 1 {
        json_string(ss[0])
    } else {
        json_items(ss.drop_last()) + ","@ + json_string(ss.last())
    }
}

/// A JSON array of strings, as `serde_json` writes it.
pub open spec fn json_array(ss: Seq<Seq<char>>) -> Seq<char> {
    "["@ + json_items(ss) + "]"@
}

/// The JSON array of the strings (as `serde_json::to_string` renders a set of paths).
pub fn json_string_array(ss: &Vec<String>) -> (r: String)
    ensures
        r@ == json_array(crate::dependency::strings_view(ss@)),
{
    let ghost v = crate::dependency::strings_view(ss@);
    let mut m = String::new();
    append_str(&mut m, "[");
    let mut i: usize = 0;
    assert(v.take(0) =~= Seq::<Seq<char>>::empty());
    while i < ss.len()
        invariant
            i <= ss@.len(),
            v == crate::dependency::strings_view(ss@),
            m@ == "["@ + json_items(v.take(i as int)),
        decreases ss@.len() - i,
    {
        let ghost t1 = v.take(i + 1);
        assert(t1.drop_last() =~= v.take(i as int));
        assert(t1.last() == ss@[i as int]@);
        if i > 0 {
            append_str(&mut m, ",");
        }
        let q = json_quote(ss[i].as_str()).unwrap();
        append_str(&mut m, q.as_str());
        if i == 0 {
            assert(t1 =~= seq![ss@[0]@]);
        }
        i = i + 1;
    }
    assert(v.take(ss@.len() as int) =~= v);
    append_str(&mut m, "]");
    m
}

/// How `cargo check` (or `fix`) is run for one toolchain: the subcommand, the arguments and the
/// environment variables set.
#[derive(Debug)]
pub struct CheckCommand {
    pub subcommand: String,
    pub args: Vec<String>,
    pub envs: Vec<(String, String)>,
}

/// The environment of the command for one toolchain: `CLIPPY_DISABLE_DOCS_LINKS` (given, JSON),
/// `DYLINT_LIBS` (the JSON array of the toolchain's library paths), `DYLINT_METADATA` (given,
/// JSON), `DYLINT_NO_DEPS` (`1` or `0`), `RUSTC_WORKSPACE_WRAPPER` (the driver) and
/// `RUSTUP_TOOLCHAIN`.
pub open spec fn check_envs(
    clippy_disable_docs_links: Seq<char>,
    paths: Seq<Seq<char>>,
    metadata: Seq<char>,
    no_deps: bool,
    driver: Seq<char>,
    toolchain: Seq<char>,
) -> Seq<(Seq<char>, Seq<char>)> {
    seq![
        ("CLIPPY_DISABLE_DOCS_LINKS"@, clippy_disable_docs_links),
        ("DYLINT_LIBS"@, json_array(paths)),
        ("DYLINT_METADATA"@, metadata),
        ("DYLINT_NO_DEPS"@, if no_deps { "1"@ } else { "0"@ }),
        ("RUSTC_WORKSPACE_WRAPPER"@, driver),
        ("RUSTUP_TOOLCHAIN"@, toolchain),
    ]
}

/// The check command tells the driver whether to skip dependencies through exactly one variable,
/// `DYLINT_NO_DEPS`: it is `"1"` when `--no-deps` was given and `"0"` when it was not, so the two
/// settings never give the same environment.
pub proof fn lemma_no_deps_variable(
    clippy_disable_docs_links: Seq<char>,
    paths: Seq<Seq<char>>,
    metadata: Seq<char>,
    no_deps: bool,
    driver: Seq<char>,
    toolchain: Seq<char>,
)
    ensures
        ({
            let envs = check_envs(clippy_disable_docs_links, paths, metadata, no_deps, driver, toolchain);
            let other = check_envs(clippy_disable_docs_links, paths, metadata, !no_deps, driver, toolchain);
            &&& exists|i: int| 0 <= i < envs.len() && (#[trigger] envs[i]).0 == "DYLINT_NO_DEPS"@
            &&& forall|i: int|
                0 <= i < envs.len() && (#[trigger] envs[i]).0 == "DYLINT_NO_DEPS"@ ==> (if no_deps {
                    envs[i].1 == "1"@
                } else {
                    envs[i].1 == "0"@
                })
            &&& envs != other
        }),
{
    reveal_strlit("DYLINT_NO_DEPS");
    reveal_strlit("CLIPPY_DISABLE_DOCS_LINKS");
    reveal_strlit("DYLINT_LIBS");
    reveal_strlit("DYLINT_METADATA");
    reveal_strlit("RUSTC_WORKSPACE_WRAPPER");
    reveal_strlit("RUSTUP_TOOLCHAIN");
    reveal_strlit("1");
    reveal_strlit("0");
    let envs = check_envs(clippy_disable_docs_links, paths, metadata, no_deps, driver, toolchain);
    let other = check_envs(clippy_disable_docs_links, paths, metadata, !no_deps, driver, toolchain);
    assert(envs[3].0 == "DYLINT_NO_DEPS"@);
    assert forall|i: int| 0 <= i < envs.len() && (#[trigger] envs[i]).0 == "DYLINT_NO_DEPS"@ implies (if no_deps {
        envs[i].1 == "1"@
    } else {
        envs[i].1 == "0"@
    }) by {
        if i != 3 {
            assert(envs[i].0.len() != "DYLINT_NO_DEPS"@.len() || envs[i].0[0] != 'D' || envs[i].0[7] != 'N');
        }
    }
    assert("1"@ != "0"@) by {
        assert("1"@[0] != "0"@[0]);
    }
    assert(envs[3].1 != other[3].1);
}

/// The command that checks (or, with `--fix`, fixes) the workspace with one toolchain's libraries
/// (see [`check_args_text`] and [`check_envs`]).
pub fn check_command(
    check: &Check,
    toolchain: &str,
    target_dir: &str,
    paths: &Vec<String>,
    driver: &str,
    metadata: &str,
    clippy_disable_docs_links: &str,
) -> (r: CheckCommand)
    ensures
        r.subcommand@ == (if check.fix { "fix"@ } else { "check"@ }),
        crate::dependency::strings_view(r.args@) == check_args_text(target_dir@, *check),
        r.envs@.map_values(|p: (String, String)| (p.0@, p.1@)) == check_envs(
            clippy_disable_docs_links@,
            crate::dependency::strings_view(paths@),
            metadata@,
            check.no_deps,
            driver@,
            toolchain@,
        ),
{
    let subcommand = if check.fix {
        "fix".to_owned()
    } else {
        "check".to_owned()
    };
    let args = check_args(target_dir, check);
    let mut envs: Vec<(String, String)> = Vec::new();
    envs.push(("CLIPPY_DISABLE_DOCS_LINKS".to_owned(), clippy_disable_docs_links.to_owned()));
    envs.push(("DYLINT_LIBS".to_owned(), json_string_array(paths)));
    envs.push(("DYLINT_METADATA".to_owned(), metadata.to_owned()));
    envs.push(
        (
            "DYLINT_NO_DEPS".to_owned(),
            if check.no_deps {
                "1".to_owned()
            } else {
                "0".to_owned()
            },
        ),
    );
    envs.push(("RUSTC_WORKSPACE_WRAPPER".to_owned(), driver.to_owned()));
    envs.push(("RUSTUP_TOOLCHAIN".to_owned(), toolchain.to_owned()));
    assert(envs@.map_values(|p: (String, String)| (p.0@, p.1@)) =~= check_envs(
        clippy_disable_docs_links@,
        crate::dependency::strings_view(paths@),
        metadata@,
        check.no_deps,
        driver@,
        toolchain@,
    ));
    CheckCommand { subcommand, args, envs }
}

/// How Rust's `Debug` renders a string (a quoted literal, with `escape_debug` escapes).
pub uninterp spec fn rust_debug_string(s: Seq<char>) -> Seq<char>;

/// `format!("{:?}", s)`: the string's `Debug` rendering.
#[verifier::external_body]
fn debug_quote(s: &str) -> (r: String)
    ensures
        r@ == rust_debug_string(s@),
{
    format!("{s:?}")
}

/// The items of a list rendered by `Debug`, separated by `, `.
pub open spec fn debug_items(ss: Seq<Seq<char>>) -> Seq<char>
    decreases ss.len(),
{
    if ss.len() == 0 {
        Seq::empty()
    } else if ss.len() == 1 {
        rust_debug_string(ss[0])
    } else {
        debug_items(ss.drop_last()) + ", "@ + rust_debug_string(ss.last())
    }
}

/// How the run ends after every toolchain was tried: it succeeds where no toolchain failed, and
/// otherwise fails naming the toolchains that did (as `Debug` renders their list).
pub fn finish(failures: &Vec<String>) -> (r: Result<(), String>)
    ensures
        r is Ok <==> failures@.len() == 0,
        r matches Err(m) ==> m@ == "Compilation failed with the following toolchains: ["@
            + debug_items(crate::dependency::strings_view(failures@)) + "]"@,
{
    if failures.len() == 0 {
        return Ok(());
    }
    let ghost v = crate::dependency::strings_view(failures@);
    let mut m = String::new();
    append_str(&mut m, "Compilation failed with the following toolchains: [");
    let ghost m0 = m@;
    let mut i: usize = 0;
    assert(v.take(0) =~= Seq::<Seq<char>>::empty());
    while i < failures.len()
        invariant
            i <= failures@.len(),
            v == crate::dependency::strings_view(failures@),
            m@ == m0 + debug_items(v.take(i as int)),
        decreases failures@.len() - i,
    {
        let ghost t1 = v.take(i + 1);
        assert(t1.drop_last() =~= v.take(i as int));
        assert(t1.last() == failures@[i as int]@);
        if i > 0 {
            append_str(&mut m, ", ");
        }
        let q = debug_quote(failures[i].as_str());
        append_str(&mut m, q.as_str());
        if i == 0 {
            assert(t1 =~= seq![failures@[0]@]);
        }
        i = i + 1;
    }
    assert(v.take(failures@.len() as int) =~= v);
    append_str(&mut m, "]");
    Err(m)
}

/// The text with which the run ends where checking with `toolchain` failed and `--keep-going` was
/// not given.
pub fn check_failed_message(toolchain: &str) -> (r: String)
    ensures
        r@ == "Compilation failed with toolchain `"@ + toolchain@ + "`"@,
{
    let mut m = String::new();
    append_str(&mut m, "Compilation failed with toolchain `");
    append_str(&mut m, toolchain);
    append_str(&mut m, "`");
    m
}
} // verus!
