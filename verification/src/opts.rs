//! Command-line options.
//!
//! Adding a public field to one of these structs is not a breaking change, so build values with
//! struct update syntax, e.g. `Dylint { quiet: true, ..Default::default() }`.

use vstd::prelude::*;

verus! {

/// Options that apply to every operation.
#[derive(Clone, Debug)]
pub struct Dylint {
    pub pipe_stderr: Option<String>,
    pub pipe_stdout: Option<String>,
    pub quiet: bool,
    pub operation: Operation,
}

/// Which lint libraries to load, and where to find them.
#[derive(Clone, Debug)]
pub struct LibrarySelection {
    pub all: bool,
    pub branch: Option<String>,
    pub git: Option<String>,
    pub lib_paths: Vec<String>,
    pub libs: Vec<String>,
    pub manifest_path: Option<String>,
    pub no_build: bool,
    pub no_metadata: bool,
    pub paths: Vec<String>,
    pub pattern: Option<String>,
    pub rev: Option<String>,
    pub tag: Option<String>,
}

/// The operation requested on the command line.
#[derive(Clone, Debug)]
#[non_exhaustive]
pub enum Operation {
    Check(Check),
    List(List),
    New(New),
    Upgrade(Upgrade),
}

/// Options of `cargo dylint` when it checks (or fixes) a workspace.
#[derive(Clone, Debug)]
pub struct Check {
    pub lib_sel: LibrarySelection,
    pub fix: bool,
    pub keep_going: bool,
    pub no_deps: bool,
    pub packages: Vec<String>,
    pub workspace: bool,
    pub args: Vec<String>,
}

/// Options of `cargo dylint list`.
#[derive(Clone, Debug)]
pub struct List {
    pub lib_sel: LibrarySelection,
}

/// Options of `cargo dylint new`.
#[derive(Clone, Debug)]
pub struct New {
    pub isolate: bool,
    pub path: String,
}

/// Options of `cargo dylint upgrade`.
#[derive(Clone, Debug)]
pub struct Upgrade {
    pub allow_downgrade: bool,
    pub rust_version: Option<String>,
    pub auto_correct: bool,
    pub path: Option<String>,
}

/// A library selection with nothing selected.
pub open spec fn empty_selection(s: LibrarySelection) -> bool {
    &&& !s.all
    &&& s.branch is None
    &&& s.git is None
    &&& s.lib_paths@.len() == 0
    &&& s.libs@.len() == 0
    &&& s.manifest_path is None
    &&& !s.no_build
    &&& !s.no_metadata
    &&& s.paths@.len() == 0
    &&& s.pattern is None
    &&& s.rev is None
    &&& s.tag is None
}

/// The library selection that an operation carries, if it carries one.
pub open spec fn selection_of(op: Operation) -> Option<LibrarySelection> {
    match op {
        Operation::Check(check) => Some(check.lib_sel),
        Operation::List(list) => Some(list.lib_sel),
        Operation::New(_) => None,
        Operation::Upgrade(_) => None,
    }
}

/// `op` with its library selection replaced by `sel` (unchanged where it carries none).
pub open spec fn with_selection(op: Operation, sel: LibrarySelection) -> Operation {
    match op {
        Operation::Check(check) => Operation::Check(Check { lib_sel: sel, ..check }),
        Operation::List(_) => Operation::List(List { lib_sel: sel }),
        _ => op,
    }
}

/// Whether `--git` or `--path` names a library package.
pub open spec fn spec_git_or_path(sel: LibrarySelection) -> bool {
    sel.git is Some || sel.paths@.len() > 0
}

impl Default for LibrarySelection {
    fn default() -> (r: Self)
        ensures
            empty_selection(r),
    {
        LibrarySelection {
            all: false,
            branch: None,
            git: None,
            lib_paths: Vec::new(),
            libs: Vec::new(),
            manifest_path: None,
            no_build: false,
            no_metadata: false,
            paths: Vec::new(),
            pattern: None,
            rev: None,
            tag: None,
        }
    }
}

impl Default for Check {
    fn default() -> (r: Self)
        ensures
            empty_selection(r.lib_sel),
            !r.fix,
            !r.keep_going,
            !r.no_deps,
            r.packages@.len() == 0,
            !r.workspace,
            r.args@.len() == 0,
    {
        Check {
            lib_sel: LibrarySelection::default(),
            fix: false,
            keep_going: false,
            no_deps: false,
            packages: Vec::new(),
            workspace: false,
            args: Vec::new(),
        }
    }
}

impl Default for List {
    fn default() -> (r: Self)
        ensures
            empty_selection(r.lib_sel),
    {
        List { lib_sel: LibrarySelection::default() }
    }
}

impl Default for New {
    fn default() -> (r: Self)
        ensures
            !r.isolate,
            r.path@.len() == 0,
    {
        New { isolate: false, path: String::new() }
    }
}

impl Default for Upgrade {
    fn default() -> (r: Self)
        ensures
            !r.allow_downgrade,
            r.rust_version is None,
            !r.auto_correct,
            r.path is None,
    {
        Upgrade { allow_downgrade: false, rust_version: None, auto_correct: false, path: None }
    }
}

impl Default for Operation {
    /// Checking is the default operation.
    fn default() -> (r: Self)
        ensures
            r matches Operation::Check(check) && empty_selection(check.lib_sel) && !check.fix
                && !check.keep_going && !check.no_deps && check.packages@.len() == 0
                && !check.workspace && check.args@.len() == 0,
    {
        Operation::Check(Check::default())
    }
}

impl Default for Dylint {
    fn default() -> (r: Self)
        ensures
            r.pipe_stderr is None,
            r.pipe_stdout is None,
            !r.quiet,
            r.operation matches Operation::Check(check) && empty_selection(check.lib_sel),
    {
        Dylint { pipe_stderr: None, pipe_stdout: None, quiet: false, operation: Operation::default() }
    }
}

/// `Box::leak`: gives up ownership of the box and returns a reference, valid for the rest of the
/// program, to the value that it holds (the value is never dropped).
#[verifier::external_body]
fn leak_box<T: 'static>(b: Box<T>) -> (r: &'static T)
    ensures
        *r == *b,
{
    Box::leak(b)
}

impl LibrarySelection {
    /// Whether `--git` or `--path` was given.
    pub fn git_or_path(&self) -> (r: bool)
        ensures
            r == spec_git_or_path(*self),
    {
        self.git.is_some() || !self.paths.is_empty()
    }
}

impl Operation {
    /// Whether the operation carries a library selection.
    pub fn has_library_selection(&self) -> (r: bool)
        ensures
            r == (selection_of(*self) is Some),
    {
        match self {
            Operation::Check(_) | Operation::List(_) => true,
            Operation::New(_) | Operation::Upgrade(_) => false,
        }
    }

    /// The operation's library selection; for operations that carry none, the default (empty)
    /// selection.
    pub fn library_selection(&self) -> (r: &LibrarySelection)
        ensures
            selection_of(*self) matches Some(sel) ==> *r == sel,
            selection_of(*self) is None ==> empty_selection(*r),
    {
        match self {
            Operation::Check(check) => &check.lib_sel,
            Operation::List(list) => &list.lib_sel,
            Operation::New(_) | Operation::Upgrade(_) => leak_box(Box::new(LibrarySelection::default())),
        }
    }

    /// Mutable access to the operation's library selection. Only operations that carry one may
    /// be asked.
    pub fn library_selection_mut(&mut self) -> (r: &mut LibrarySelection)
        requires
            selection_of(*old(self)) is Some,
        ensures
            selection_of(*old(self)) == Some(*r),
            *final(self) == with_selection(*old(self), *final(r)),
    {
        match self {
            Operation::Check(check) => &mut check.lib_sel,
            Operation::List(list) => &mut list.lib_sel,
            Operation::New(_) | Operation::Upgrade(_) => unreached(),
        }
    }
}

impl Dylint {
    /// Whether the requested operation carries a library selection.
    pub fn has_library_selection(&self) -> (r: bool)
        ensures
            r == (selection_of(self.operation) is Some),
    {
        self.operation.has_library_selection()
    }

    /// The library selection of the requested operation; the default (empty) selection for `new`
    /// and `upgrade`.
    pub fn library_selection(&self) -> (r: &LibrarySelection)
        ensures
            selection_of(self.operation) matches Some(sel) ==> *r == sel,
            selection_of(self.operation) is None ==> empty_selection(*r),
    {
        self.operation.library_selection()
    }

    /// Mutable access to the library selection; only for `check` and `list`.
    pub fn library_selection_mut(&mut self) -> (r: &mut LibrarySelection)
        requires
            selection_of(old(self).operation) is Some,
        ensures
            selection_of(old(self).operation) == Some(*r),
            final(self).operation == with_selection(old(self).operation, *final(r)),
            final(self).pipe_stderr == old(self).pipe_stderr,
            final(self).pipe_stdout == old(self).pipe_stdout,
            final(self).quiet == old(self).quiet,
    {
        self.operation.library_selection_mut()
    }

    /// Whether `--git` or `--path` was given (never for `new` and `upgrade`).
    pub fn git_or_path(&self) -> (r: bool)
        ensures
            r == (selection_of(self.operation) matches Some(sel) && spec_git_or_path(sel)),
    {
        self.library_selection().git_or_path()
    }
}

} // verus!
