//! Lint libraries: the library a package builds, how a library is named on the command line, and
//! what is read from the output of `cargo` while locating a library's sources.

use vstd::prelude::*;
use crate::span::{find_chars, first_occurrence};
use crate::text::{append_str, chars_of, string_from_chars, sub_chars};

verus! {

/// The kind of a target of a package, as `cargo metadata` reports it.
#[derive(Debug)]
pub enum TargetKind {
    Bench,
    Bin,
    CustomBuild,
    CDyLib,
    DyLib,
    Example,
    Lib,
    ProcMacro,
    RLib,
    StaticLib,
    Test,
    Unknown(String),
}

/// A target of a package: its name and kinds.
#[derive(Debug)]
pub struct Target {
    pub name: String,
    pub kind: Vec<TargetKind>,
}

/// A package as `cargo metadata` reports it: its id and targets.
#[derive(Debug)]
pub struct MetadataPackage {
    pub id: String,
    pub targets: Vec<Target>,
}

/// The target builds a `cdylib`.
pub open spec fn is_cdylib_target(t: Target) -> bool {
    exists|k: int| 0 <= k < t.kind@.len() && t.kind@[k] is CDyLib
}

/// The package has no `cdylib` target; its id is given.
#[derive(Debug)]
pub struct NoCdylibError {
    pub package_id: String,
}

/// The name of the package's first `cdylib` target, which is the library that it builds; fails
/// where it has none.
pub fn package_library_name(package: &MetadataPackage) -> (r: Result<String, NoCdylibError>)
    ensures
        match r {
            Ok(name) => exists|i: int|
                0 <= i < package.targets@.len() && is_cdylib_target(#[trigger] package.targets@[i])
                    && name@ == package.targets@[i].name@ && forall|j: int|
                    0 <= j < i ==> !is_cdylib_target(#[trigger] package.targets@[j]),
            Err(e) => e.package_id@ == package.id@ && forall|j: int|
                0 <= j < package.targets@.len() ==> !is_cdylib_target(#[trigger] package.targets@[j]),
        },
{
    let mut i: usize = 0;
    while i < package.targets.len()
        invariant
            i <= package.targets@.len(),
            forall|j: int| 0 <= j < i ==> !is_cdylib_target(#[trigger] package.targets@[j]),
        decreases package.targets@.len() - i,
    {
        let target = &package.targets[i];
        let mut k: usize = 0;
        while k < target.kind.len()
            invariant
                i < package.targets@.len(),
                *target == package.targets@[i as int],
                forall|j: int| 0 <= j < i ==> !is_cdylib_target(#[trigger] package.targets@[j]),
                k <= target.kind@.len(),
                forall|m: int| 0 <= m < k ==> !(#[trigger] target.kind@[m] is CDyLib),
            decreases target.kind@.len() - k,
        {
            if let TargetKind::CDyLib = target.kind[k] {
                assert(is_cdylib_target(package.targets@[i as int]));
                let name = target.name.clone();
                assert(name@ == package.targets@[i as int].name@);
                return Ok(name);
            }
            k = k + 1;
        }
        i = i + 1;
    }
    Err(NoCdylibError { package_id: package.id.clone() })
}

/// `name` is a valid library name: a single component of a path, as `Path::file_name` sees it
/// on Unix (not empty, no `/`, neither `.` nor `..`).
pub open spec fn lib_name_ok(name: Seq<char>) -> bool {
    &&& name.len() > 0
    &&& forall|i: int| 0 <= i < name.len() ==> #[trigger] name[i] != '/'
    &&& name != seq!['.']
    &&& name != seq!['.', '.']
}

/// Whether `name` is a valid library name (see [`lib_name_ok`]).
pub fn is_valid_lib_name(name: &str) -> (r: bool)
    ensures
        r == lib_name_ok(name@),
{
    let cs = chars_of(name);
    if cs.len() == 0 {
        return false;
    }
    let mut i: usize = 0;
    while i < cs.len()
        invariant
            cs@ == name@,
            i <= cs@.len(),
            forall|j: int| 0 <= j < i ==> #[trigger] cs@[j] != '/',
        decreases cs@.len() - i,
    {
        if cs[i] == '/' {
            return false;
        }
        i = i + 1;
    }
    if cs.len() == 1 && cs[0] == '.' {
        assert(name@ =~= seq!['.']);
        return false;
    }
    if cs.len() == 2 && cs[0] == '.' && cs[1] == '.' {
        assert(name@ =~= seq!['.', '.']);
        return false;
    }
    assert(name@ != seq!['.']) by {
        if name@ == seq!['.'] {
            assert(cs@[0] == '.');
        }
    }
    assert(name@ != seq!['.', '.']) by {
        if name@ == seq!['.', '.'] {
            assert(cs@[0] == '.' && cs@[1] == '.');
        }
    }
    true
}

/// The entries of a toolchain map, toolchain by toolchain, each with its toolchain.
pub open spec fn flatten<T>(map: Seq<(String, Vec<T>)>) -> Seq<(String, T)>
    decreases map.len(),
{
    if map.len() == 0 {
        Seq::empty()
    } else {
        flatten(map.drop_last()) + map.last().1@.map_values(|v: T| (map.last().0, v))
    }
}

/// The entries of a map from toolchains to lists, each with its toolchain, in order.
pub fn flatten_toolchain_map<T: Copy>(toolchain_map: &Vec<(String, Vec<T>)>) -> (r: Vec<(String, T)>)
    ensures
        r@ == flatten(toolchain_map@),
{
    let mut r: Vec<(String, T)> = Vec::new();
    let mut i: usize = 0;
    assert(toolchain_map@.take(0) =~= Seq::<(String, Vec<T>)>::empty());
    while i < toolchain_map.len()
        invariant
            i <= toolchain_map@.len(),
            r@ == flatten(toolchain_map@.take(i as int)),
        decreases toolchain_map@.len() - i,
    {
        let (toolchain, values) = &toolchain_map[i];
        let ghost before = r@;
        let mut j: usize = 0;
        while j < values.len()
            invariant
                j <= values@.len(),
                r@ == before + values@.take(j as int).map_values(|v: T| (*toolchain, v)),
            decreases values@.len() - j,
        {
            r.push((toolchain.clone(), values[j]));
            j = j + 1;
            assert(r@ =~= before + values@.take(j as int).map_values(|v: T| (*toolchain, v)));
        }
        assert(values@.take(values@.len() as int) =~= values@);
        assert(toolchain_map@.take(i + 1).drop_last() =~= toolchain_map@.take(i as int));
        i = i + 1;
    }
    assert(toolchain_map@.take(toolchain_map@.len() as int) =~= toolchain_map@);
    r
}

/// Why a name does not designate one library.
#[derive(Debug)]
pub enum NameAsLibError<T> {
    /// The name is not a valid library name.
    InvalidName(String),
    /// No library has the name.
    NotFound(String),
    /// Several libraries have the name: each with its toolchain.
    Multiple(String, Vec<(String, T)>),
}

/// What a name designates among the libraries found, given the toolchain map of the libraries with
/// that name (where there are any): `None` where the name is not a valid library name, no library
/// has it, or it names none under any toolchain; the toolchain and library where it names exactly
/// one. Where `as_lib_only` holds, a name that is invalid or that no library has is an error; so
/// is, in any case, a name that several libraries have.
pub fn name_as_lib<T: Copy>(
    name: &str,
    as_lib_only: bool,
    toolchain_map: Option<&Vec<(String, Vec<T>)>>,
) -> (r: Result<Option<(String, T)>, NameAsLibError<T>>)
    ensures
        !lib_name_ok(name@) ==> (if as_lib_only {
            r matches Err(NameAsLibError::InvalidName(n)) && n@ == name@
        } else {
            r matches Ok(None)
        }),
        lib_name_ok(name@) && toolchain_map is None ==> (if as_lib_only {
            r matches Err(NameAsLibError::NotFound(n)) && n@ == name@
        } else {
            r matches Ok(None)
        }),
        lib_name_ok(name@) && toolchain_map is Some && flatten(toolchain_map.unwrap()@).len() == 0
            ==> r matches Ok(None),
        lib_name_ok(name@) && toolchain_map is Some && flatten(toolchain_map.unwrap()@).len() == 1
            ==> r == Ok::<Option<(String, T)>, NameAsLibError<T>>(
            Some(flatten(toolchain_map.unwrap()@)[0]),
        ),
        lib_name_ok(name@) && toolchain_map is Some && flatten(toolchain_map.unwrap()@).len() > 1
            ==> (r matches Err(NameAsLibError::Multiple(n, found)) && n@ == name@ && found@
            == flatten(toolchain_map.unwrap()@)),
{
    if !is_valid_lib_name(name) {
        if as_lib_only {
            return Err(NameAsLibError::InvalidName(name.to_string()));
        }
        return Ok(None);
    }
    match toolchain_map {
        Some(map) => {
            let mut all = flatten_toolchain_map(map);
            if all.len() == 0 {
                Ok(None)
            } else if all.len() == 1 {
                Ok(Some(all.remove(0)))
            } else {
                Err(NameAsLibError::Multiple(name.to_string(), all))
            }
        },
        None => {
            if as_lib_only {
                Err(NameAsLibError::NotFound(name.to_string()))
            } else {
                Ok(None)
            }
        },
    }
}

/// A value to record in a TOML table under `key`, where there is one.
pub fn to_map_entry(key: &str, value: Option<&String>) -> (r: Option<(String, String)>)
    ensures
        match value {
            Some(v) => r matches Some((k, w)) && k@ == key@ && w@ == v@,
            None => r is None,
        },
{
    match value {
        Some(v) => Some((key.to_string(), v.clone())),
        None => None,
    }
}

/// The manifest of a package whose one dependency is `dep_name`, specified by the TOML text
/// `details`.
pub open spec fn dummy_manifest_text(dep_name: Seq<char>, details: Seq<char>) -> Seq<char> {
    "\n[package]\nname = \"dummy-package\"\nversion = \"0.1.0\"\nedition = \"2024\"\npublish = false\n\n[dependencies."@
        + dep_name + "]\n"@ + details + "\n"@
}

/// The manifest of a package whose one dependency is `dep_name`, specified by the TOML text
/// `details`.
pub fn manifest_contents(dep_name: &str, details: &str) -> (r: String)
    ensures
        r@ == dummy_manifest_text(dep_name@, details@),
{
    let mut s = String::new();
    append_str(
        &mut s,
        "\n[package]\nname = \"dummy-package\"\nversion = \"0.1.0\"\nedition = \"2024\"\npublish = false\n\n[dependencies.",
    );
    append_str(&mut s, dep_name);
    append_str(&mut s, "]\n");
    append_str(&mut s, details);
    append_str(&mut s, "\n");
    s
}

/// Where the line that starts at `b` ends: just after its newline, or at the end of `s`.
pub open spec fn line_end(s: Seq<char>, b: int) -> int
    decreases s.len() - b,
{
    if b >= s.len() || b < 0 {
        s.len() as int
    } else if s[b] == '\n' {
        b + 1
    } else {
        line_end(s, b + 1)
    }
}

/// A line (newline included) starts at `b`.
pub open spec fn is_line_start(s: Seq<char>, b: int) -> bool {
    0 <= b < s.len() && (b == 0 || s[b - 1] == '\n')
}

/// The line that starts at `b` holds `needle`.
pub open spec fn line_holds(s: Seq<char>, needle: Seq<char>, b: int) -> bool {
    first_occurrence(s.subrange(b, line_end(s, b)), needle) is Some
}

/// What follows the last line of `s` that holds `dep_name`; all of `s` where none does.
pub open spec fn dependency_free_suffix(dep_name: Seq<char>, s: Seq<char>) -> Seq<char> {
    if exists|b: int| is_line_start(s, b) && line_holds(s, dep_name, b) {
        let b = choose|b: int|
            is_line_start(s, b) && line_holds(s, dep_name, b) && forall|b2: int|
                b < b2 && is_line_start(s, b2) ==> !line_holds(s, dep_name, b2);
        s.skip(line_end(s, b))
    } else {
        s
    }
}

/// What follows the last line of `s` that mentions `dep_name`, or all of `s` where none does (the
/// part of `cargo`'s output that concerns other packages).
pub fn dummy_dependency_free_suffix(dep_name: &str, s: &str) -> (r: String)
    ensures
        r@ == dependency_free_suffix(dep_name@, s@),
{
    let cs = chars_of(s);
    let dep = chars_of(dep_name);
    let ghost sv = s@;
    let n = cs.len();
    let mut b: usize = 0;
    let mut found: Option<(usize, usize)> = None;
    while b < n
        invariant
            cs@ == sv,
            dep@ == dep_name@,
            n == sv.len(),
            b <= n,
            b == 0 || b == n || sv[b - 1] == '\n',
            match found {
                Some((lb, le)) => is_line_start(sv, lb as int) && lb < b && line_holds(
                    sv,
                    dep@,
                    lb as int,
                ) && le == line_end(sv, lb as int) && le <= n && forall|b2: int|
                    lb < b2 < b && is_line_start(sv, b2) ==> !line_holds(sv, dep@, b2),
                None => forall|b2: int| 0 <= b2 < b && is_line_start(sv, b2) ==> !line_holds(sv, dep@, b2),
            },
        decreases n - b,
    {
        let mut e: usize = b;
        while e < n && cs[e] != '\n'
            invariant
                cs@ == sv,
                n == sv.len(),
                b <= e <= n,
                line_end(sv, b as int) == line_end(sv, e as int),
                forall|k: int| b <= k < e ==> sv[k] != '\n',
            decreases n - e,
        {
            e = e + 1;
        }
        let end: usize = if e < n {
            e + 1
        } else {
            n
        };
        assert(end == line_end(sv, b as int));
        assert(is_line_start(sv, b as int));
        let line = sub_chars(&cs, b, end);
        let holds = find_chars(&line, &dep).is_some();
        proof {
            assert forall|b2: int| b < b2 < end implies !is_line_start(sv, b2) by {
                assert(sv[b2 - 1] != '\n');
            }
        }
        if holds {
            found = Some((b, end));
        }
        b = end;
    }
    match found {
        Some((lb, le)) => {
            proof {
                let w = choose|b: int|
                    is_line_start(sv, b) && line_holds(sv, dep@, b) && forall|b2: int|
                        b < b2 && is_line_start(sv, b2) ==> !line_holds(sv, dep@, b2);
                assert(is_line_start(sv, lb as int) && line_holds(sv, dep@, lb as int));
                assert(forall|b2: int| lb < b2 && is_line_start(sv, b2) ==> !line_holds(sv, dep@, b2));
                assert(w == lb) by {
                    if w < lb {
                    } else if w > lb {
                    }
                }
            }
            let rest = sub_chars(&cs, le, n);
            assert(rest@ =~= sv.skip(le as int));
            string_from_chars(rest.as_slice())
        },
        None => {
            assert(!exists|b: int| is_line_start(sv, b) && line_holds(sv, dep@, b));
            string_from_chars(cs.as_slice())
        },
    }
}

/// What to do when `cargo metadata` fails.
#[derive(Debug, PartialEq, Eq)]
pub enum MetadataFailure {
    /// Fail with its error.
    Propagate,
    /// Go on without metadata, saying nothing.
    Quiet,
    /// Go on without metadata, after warning with this message.
    Warn(String),
}

/// The text of the line that starts at `b` (`str::lines`): without its newline, and without a
/// carriage return just before that newline.
pub open spec fn line_text(s: Seq<char>, b: int) -> Seq<char> {
    let l = s.subrange(b, line_end(s, b));
    if l.len() > 0 && l.last() == '\n' {
        let l = l.drop_last();
        if l.len() > 0 && l.last() == '\r' {
            l.drop_last()
        } else {
            l
        }
    } else {
        l
    }
}

/// The first line of `s`, where `s` is not empty.
pub open spec fn first_line(s: Seq<char>) -> Option<Seq<char>> {
    if s.len() == 0 {
        None
    } else {
        Some(line_text(s, 0))
    }
}

/// `s` without `prefix`, where it starts with it.
pub open spec fn strip_prefix_or_self(s: Seq<char>, prefix: Seq<char>) -> Seq<char> {
    if prefix.is_prefix_of(s) {
        s.skip(prefix.len() as int)
    } else {
        s
    }
}

/// What to do when `cargo metadata` fails: where a manifest path was given, or the failure is not
/// `cargo`'s own (`is_cargo_error` false, or no stderr line), the failure stands only where a path
/// was given; otherwise go on without metadata, and, unless the first line of `cargo`'s stderr
/// says that there is no `Cargo.toml`, warn with that line (without its `error: ` prefix).
pub fn metadata_failure(manifest_path_given: bool, is_cargo_error: bool, stderr: &str) -> (r:
    MetadataFailure)
    ensures
        manifest_path_given ==> r == MetadataFailure::Propagate,
        !manifest_path_given ==> match (if is_cargo_error {
            first_line(stderr@)
        } else {
            None
        }) {
            Some(line) => if "error: could not find `Cargo.toml`"@.is_prefix_of(line) {
                r == MetadataFailure::Quiet
            } else {
                r matches MetadataFailure::Warn(m) && m@ == strip_prefix_or_self(line, "error: "@)
            },
            None => r == MetadataFailure::Quiet,
        },
{
    if manifest_path_given {
        return MetadataFailure::Propagate;
    }
    if !is_cargo_error {
        return MetadataFailure::Quiet;
    }
    let cs = chars_of(stderr);
    let n = cs.len();
    if n == 0 {
        return MetadataFailure::Quiet;
    }
    let ghost sv = stderr@;
    let mut e: usize = 0;
    while e < n && cs[e] != '\n'
        invariant
            cs@ == sv,
            n == sv.len(),
            e <= n,
            line_end(sv, 0) == line_end(sv, e as int),
            forall|k: int| 0 <= k < e ==> sv[k] != '\n',
        decreases n - e,
    {
        e = e + 1;
    }
    let mut stop = e;
    if e < n && stop > 0 && cs[stop - 1] == '\r' {
        stop = stop - 1;
    }
    let line_chars = sub_chars(&cs, 0, stop);
    proof {
        let l = sv.subrange(0, line_end(sv, 0));
        if e < n {
            assert(l =~= sv.take(e + 1));
            assert(l.drop_last() =~= sv.take(e as int));
        } else {
            assert(l =~= sv.take(e as int));
        }
        assert(line_chars@ =~= first_line(sv).unwrap());
    }
    let line = string_from_chars(line_chars.as_slice());
    if crate::text::starts_with(line.as_str(), "error: could not find `Cargo.toml`") {
        return MetadataFailure::Quiet;
    }
    if crate::text::starts_with(line.as_str(), "error: ") {
        let k = "error: ".unicode_len();
        proof {
            reveal_strlit("error: ");
        }
        let rest = sub_chars(&line_chars, k, line_chars.len());
        MetadataFailure::Warn(string_from_chars(rest.as_slice()))
    } else {
        MetadataFailure::Warn(line)
    }
}

/// Where the manifest of a package that `cargo metadata` reports lies: the directory two levels
/// up from it, where there is one.
#[derive(Debug)]
pub enum ManifestLocation {
    /// The manifest path has no parent.
    NoParent,
    /// The manifest's directory has no parent.
    NoGrandparent,
    /// The directory two levels up.
    Grandparent(String),
}

/// A package that `cargo metadata` reports: its name and where its manifest lies.
#[derive(Debug)]
pub struct MetadataEntry {
    pub name: String,
    pub location: ManifestLocation,
}

/// A subdirectory of a checkouts directory: its name, its path, and whether a dummy dependency was
/// injected into it.
#[derive(Debug)]
pub struct Subdir {
    pub name: String,
    pub path: String,
    pub injected: bool,
}

/// Why no one checkout subdirectory was found.
#[derive(Debug)]
pub enum AccessedError {
    /// A package of the dependency's name has a manifest path without a parent.
    NoParent,
    /// A package of the dependency's name has a manifest directory without a parent.
    NoGrandparent,
    /// Several subdirectories were accessed.
    Multiple(Vec<String>),
    /// None was.
    NotDetermined,
}

/// What the packages reported under the dependency's name say was accessed: their manifests'
/// directories two levels up, in order, or the first such manifest without one.
pub enum AccessOutcome {
    Found(Seq<Seq<char>>),
    NoParent,
    NoGrandparent,
}

/// What the first packages say was accessed (see [`AccessOutcome`]).
pub open spec fn metadata_accessed(dep_name: Seq<char>, ps: Seq<MetadataEntry>) -> AccessOutcome
    decreases ps.len(),
{
    if ps.len() == 0 {
        AccessOutcome::Found(Seq::empty())
    } else {
        match metadata_accessed(dep_name, ps.drop_last()) {
            AccessOutcome::Found(v) => if ps.last().name@ == dep_name {
                match ps.last().location {
                    ManifestLocation::NoParent => AccessOutcome::NoParent,
                    ManifestLocation::NoGrandparent => AccessOutcome::NoGrandparent,
                    ManifestLocation::Grandparent(g) => AccessOutcome::Found(v.push(g@)),
                }
            } else {
                AccessOutcome::Found(v)
            },
            other => other,
        }
    }
}

/// The directories, two levels up from their manifests, of the packages that `cargo metadata`
/// reports under the dependency's name; fails at the first of those whose manifest has no such
/// directory.
pub fn accessed_by_metadata(dep_name: &str, packages: &Vec<MetadataEntry>) -> (r: Result<
    Vec<String>,
    AccessedError,
>)
    ensures
        match metadata_accessed(dep_name@, packages@) {
            AccessOutcome::Found(v) => r matches Ok(found) && crate::dependency::strings_view(found@) == v,
            AccessOutcome::NoParent => r matches Err(AccessedError::NoParent),
            AccessOutcome::NoGrandparent => r matches Err(AccessedError::NoGrandparent),
        },
{
    let dep = dep_name.to_string();
    let mut found: Vec<String> = Vec::new();
    let mut i: usize = 0;
    assert(packages@.take(0) =~= Seq::<MetadataEntry>::empty());
    assert(crate::dependency::strings_view(found@) =~= Seq::<Seq<char>>::empty());
    while i < packages.len()
        invariant
            dep@ == dep_name@,
            i <= packages@.len(),
            metadata_accessed(dep_name@, packages@.take(i as int)) == AccessOutcome::Found(
                crate::dependency::strings_view(found@),
            ),
        decreases packages@.len() - i,
    {
        let p = &packages[i];
        assert(packages@.take(i + 1).drop_last() =~= packages@.take(i as int));
        assert(packages@.take(i + 1).last() == *p);
        if p.name == dep {
            match &p.location {
                ManifestLocation::NoParent => {
                    proof {
                        lemma_accessed_stops(dep_name@, packages@, i as int + 1);
                    }
                    return Err(AccessedError::NoParent);
                },
                ManifestLocation::NoGrandparent => {
                    proof {
                        lemma_accessed_stops(dep_name@, packages@, i as int + 1);
                    }
                    return Err(AccessedError::NoGrandparent);
                },
                ManifestLocation::Grandparent(g) => {
                    let ghost v = crate::dependency::strings_view(found@);
                    found.push(g.clone());
                    assert(crate::dependency::strings_view(found@) =~= v.push(g@));
                    assert(metadata_accessed(dep_name@, packages@.take(i + 1)) == AccessOutcome::Found(
                        v.push(g@),
                    ));
                },
            }
        }
        i = i + 1;
    }
    assert(packages@.take(packages@.len() as int) =~= packages@);
    Ok(found)
}

/// Once the packages say something other than what was accessed, more packages do not change it.
proof fn lemma_accessed_stops(dep_name: Seq<char>, ps: Seq<MetadataEntry>, k: int)
    requires
        0 <= k <= ps.len(),
        !(metadata_accessed(dep_name, ps.take(k)) is Found),
    ensures
        metadata_accessed(dep_name, ps) == metadata_accessed(dep_name, ps.take(k)),
    decreases ps.len() - k,
{
    if k < ps.len() {
        assert(ps.take(k + 1).drop_last() =~= ps.take(k));
        lemma_accessed_stops(dep_name, ps, k + 1);
    } else {
        assert(ps.take(k) =~= ps);
    }
}

/// The subdirectories into which no dummy dependency was injected, in order.
pub open spec fn fresh_subdirs(subdirs: Seq<Subdir>) -> Seq<Seq<char>>
    decreases subdirs.len(),
{
    if subdirs.len() == 0 {
        Seq::empty()
    } else if subdirs.last().injected {
        fresh_subdirs(subdirs.drop_last())
    } else {
        fresh_subdirs(subdirs.drop_last()).push(subdirs.last().path@)
    }
}

/// The fresh subdirectories are exactly the paths of the subdirectories without an injected
/// dependency: each of those is among them, each of them is one of those, and two of those make
/// at least two of them.
proof fn lemma_fresh_subdirs(s: Seq<Subdir>)
    ensures
        forall|i: int| 0 <= i < s.len() && !s[i].injected ==> fresh_subdirs(s).contains(#[trigger] s[i].path@),
        forall|k: int|
            0 <= k < fresh_subdirs(s).len() ==> exists|i: int|
                0 <= i < s.len() && !s[i].injected && #[trigger] fresh_subdirs(s)[k] == s[i].path@,
        forall|i: int| 0 <= i < s.len() && !(#[trigger] s[i]).injected ==> fresh_subdirs(s).len() >= 1,
        forall|i: int, j: int|
            0 <= i < j < s.len() && !(#[trigger] s[i]).injected && !(#[trigger] s[j]).injected
                ==> fresh_subdirs(s).len() >= 2,
    decreases s.len(),
{
    if s.len() > 0 {
        let t = s.drop_last();
        lemma_fresh_subdirs(t);
        let ft = fresh_subdirs(t);
        let fs = fresh_subdirs(s);
        assert forall|i: int| 0 <= i < s.len() && !s[i].injected implies fs.contains(#[trigger] s[i].path@) by {
            if i < s.len() - 1 {
                assert(t[i] == s[i]);
                assert(ft.contains(t[i].path@));
                let k = choose|k: int| 0 <= k < ft.len() && ft[k] == t[i].path@;
                assert(fs[k] == ft[k]);
            } else {
                assert(fs[fs.len() - 1] == s[i].path@);
            }
        }
        assert forall|k: int| 0 <= k < fs.len() implies exists|i: int|
            0 <= i < s.len() && !s[i].injected && #[trigger] fs[k] == s[i].path@ by {
            if k < ft.len() {
                assert(fs[k] == ft[k]);
                let i = choose|i: int| 0 <= i < t.len() && !t[i].injected && ft[k] == t[i].path@;
                assert(t[i] == s[i]);
            } else {
                assert(!s.last().injected && fs[k] == s[s.len() - 1].path@);
            }
        }
        assert forall|i: int| 0 <= i < s.len() && !(#[trigger] s[i]).injected implies fs.len() >= 1 by {
            if i < s.len() - 1 {
                assert(t[i] == s[i]);
            }
        }
        assert forall|i: int, j: int|
            0 <= i < j < s.len() && !(#[trigger] s[i]).injected && !(#[trigger] s[j]).injected implies fs.len() >= 2 by {
            assert(t[i] == s[i]);
            if j < s.len() - 1 {
                assert(t[j] == s[j]);
            }
        }
    }
}

/// The fresh subdirectories are the paths of the subdirectories without an injected dependency,
/// in their order.
proof fn lemma_fresh_is_filter(s: Seq<Subdir>)
    ensures
        fresh_subdirs(s) == s.filter(|x: Subdir| !x.injected).map_values(|x: Subdir| x.path@),
    decreases s.len(),
{
    reveal(Seq::filter);
    if s.len() > 0 {
        let t = s.drop_last();
        lemma_fresh_is_filter(t);
        let ft = t.filter(|x: Subdir| !x.injected);
        if !s.last().injected {
            assert(ft.push(s.last()).map_values(|x: Subdir| x.path@) =~= ft.map_values(
                |x: Subdir| x.path@,
            ).push(s.last().path@));
        }
    }
}

/// Two fresh subdirectories come from two subdirectories without an injected dependency.
proof fn lemma_fresh_two(s: Seq<Subdir>)
    ensures
        fresh_subdirs(s).len() >= 2 ==> exists|i: int, j: int|
            0 <= i < j < s.len() && !(#[trigger] s[i]).injected && !(#[trigger] s[j]).injected,
    decreases s.len(),
{
    if s.len() > 0 {
        let t = s.drop_last();
        lemma_fresh_two(t);
        lemma_fresh_subdirs(t);
        if fresh_subdirs(s).len() >= 2 {
            if s.last().injected {
                let (i, j) = choose|i: int, j: int|
                    0 <= i < j < t.len() && !(#[trigger] t[i]).injected && !(#[trigger] t[j]).injected;
                assert(s[i] == t[i] && s[j] == t[j]);
            } else {
                assert(fresh_subdirs(t).len() >= 1);
                let i = choose|i: int| 0 <= i < t.len() && !t[i].injected && #[trigger] fresh_subdirs(t)[0] == t[i].path@;
                assert(s[i] == t[i]);
                let j = s.len() - 1;
                assert(!s[i].injected && !s[j].injected);
            }
        }
    }
}

/// Where no package says which checkout subdirectory was accessed, the pick goes by the
/// subdirectories without an injected dependency: it succeeds only where there is exactly one of
/// them, with its path; where there are several, it fails listing every one of them; where there
/// is none, it fails as undetermined. The list of several is those paths in their order.
pub proof fn lemma_pick_without_accessed(subdirs: Seq<Subdir>, r: Result<String, AccessedError>)
    requires
        picked_ok(accessed_or_fresh(Seq::empty(), subdirs), r),
    ensures
        r matches Ok(p) ==> exists|i: int|
            0 <= i < subdirs.len() && !subdirs[i].injected && p@ == subdirs[i].path@ && forall|j: int|
                0 <= j < subdirs.len() && j != i ==> (#[trigger] subdirs[j]).injected,
        r matches Err(AccessedError::Multiple(v)) ==> (forall|i: int|
            0 <= i < subdirs.len() && !subdirs[i].injected ==> crate::dependency::strings_view(v@).contains(
                #[trigger] subdirs[i].path@,
            )) && exists|i: int, j: int|
            0 <= i < j < subdirs.len() && !(#[trigger] subdirs[i]).injected && !(#[trigger] subdirs[j]).injected,
        r matches Err(AccessedError::Multiple(v)) ==> crate::dependency::strings_view(v@)
            == subdirs.filter(|x: Subdir| !x.injected).map_values(|x: Subdir| x.path@),
        r matches Err(AccessedError::NotDetermined) ==> forall|i: int|
            0 <= i < subdirs.len() ==> (#[trigger] subdirs[i]).injected,
        !(r matches Err(AccessedError::NoParent)) && !(r matches Err(AccessedError::NoGrandparent)),
{
    lemma_fresh_subdirs(subdirs);
    lemma_fresh_is_filter(subdirs);
    let f = fresh_subdirs(subdirs);
    assert(accessed_or_fresh(Seq::empty(), subdirs) == f);
    match r {
        Ok(p) => {
            assert(f.len() == 1);
            let i = choose|i: int| 0 <= i < subdirs.len() && !subdirs[i].injected && #[trigger] f[0] == subdirs[i].path@;
            assert forall|j: int| 0 <= j < subdirs.len() && j != i implies (#[trigger] subdirs[j]).injected by {
                if !subdirs[j].injected {
                    if i < j {
                        assert(f.len() >= 2);
                    } else {
                        assert(f.len() >= 2);
                    }
                }
            }
        },
        Err(AccessedError::Multiple(v)) => {
            assert(crate::dependency::strings_view(v@) == f);
            assert(f.len() > 1);
            lemma_fresh_two(subdirs);
        },
        Err(AccessedError::NotDetermined) => {
            assert(f.len() == 0);
        },
        Err(_) => {},
    }
}

/// What was accessed: the packages' directories, or where there are none, the fresh
/// subdirectories.
pub open spec fn accessed_or_fresh(accessed: Seq<Seq<char>>, subdirs: Seq<Subdir>) -> Seq<Seq<char>> {
    if accessed.len() == 0 {
        fresh_subdirs(subdirs)
    } else {
        accessed
    }
}

/// `r` is the one directory of `all`, or the error for there being several or none.
pub open spec fn picked_ok(all: Seq<Seq<char>>, r: Result<String, AccessedError>) -> bool {
    match r {
        Ok(p) => all.len() == 1 && p@ == all[0],
        Err(AccessedError::NotDetermined) => all.len() == 0,
        Err(AccessedError::Multiple(v)) => all.len() > 1 && crate::dependency::strings_view(v@) == all,
        Err(_) => false,
    }
}

/// The one checkout subdirectory that was accessed: the one that the packages say, or, where they
/// say none, the one that is not an injected dependency (`subdirs` is read only then); fails where
/// there are several or none.
pub fn pick_accessed(accessed: Vec<String>, subdirs: &Vec<Subdir>) -> (r: Result<String, AccessedError>)
    ensures
        picked_ok(accessed_or_fresh(crate::dependency::strings_view(accessed@), subdirs@), r),
{
    let mut all = accessed;
    if all.len() == 0 {
        let mut i: usize = 0;
        assert(subdirs@.take(0) =~= Seq::<Subdir>::empty());
        assert(crate::dependency::strings_view(all@) =~= Seq::<Seq<char>>::empty());
        while i < subdirs.len()
            invariant
                i <= subdirs@.len(),
                crate::dependency::strings_view(all@) == fresh_subdirs(subdirs@.take(i as int)),
            decreases subdirs@.len() - i,
        {
            assert(subdirs@.take(i + 1).drop_last() =~= subdirs@.take(i as int));
            assert(subdirs@.take(i + 1).last() == subdirs@[i as int]);
            if !subdirs[i].injected {
                all.push(subdirs[i].path.clone());
                assert(crate::dependency::strings_view(all@) =~= crate::dependency::strings_view(
                    all@.drop_last(),
                ).push(subdirs@[i as int].path@));
            }
            i = i + 1;
        }
        assert(subdirs@.take(subdirs@.len() as int) =~= subdirs@);
    }
    if all.len() > 1 {
        Err(AccessedError::Multiple(all))
    } else if all.len() == 0 {
        Err(AccessedError::NotDetermined)
    } else {
        Ok(all.remove(0))
    }
}

/// Whether `path` starts with `base`, component by component (`std::path::Path::starts_with`).
pub uninterp spec fn path_starts_with(path: Seq<char>, base: Seq<char>) -> bool;

/// `Path::starts_with`: claims only that the answer is determined by the two paths.
#[verifier::external_body]
fn starts_with_path(path: &str, base: &str) -> (r: bool)
    ensures
        r == path_starts_with(path@, base@),
{
    std::path::Path::new(path).starts_with(base)
}

/// Why the paths matched for a library entry were refused.
#[derive(Debug)]
pub enum MatchError {
    /// A path that `pattern` matched lies outside the dependency's root (both normalized).
    Outside { pattern: String, path: String, root: String },
    /// The entry's `pattern` matched nothing.
    NoMatch { pattern: String },
    /// The dependency's root matched nothing.
    NoPackages { root: String },
}

/// Paths, each normalized (see [`crate::paths::normalized_path`]).
pub open spec fn normalized_all(paths: Seq<Seq<char>>) -> Seq<Seq<char>> {
    paths.map_values(|p: Seq<char>| crate::paths::normalized_path(p))
}

/// What the paths matched by one pattern give: the matched paths, normalized; where a `pattern`
/// was given, each of them must lie in the normalized root (the first that does not is refused);
/// a pattern must match something.
pub open spec fn matched_step(
    pattern_given: bool,
    pattern: Seq<char>,
    root: Seq<char>,
    matched: Seq<Seq<char>>,
) -> Result<Seq<Seq<char>>, (int, Seq<char>)> {
    let nm = normalized_all(matched);
    let nr = crate::paths::normalized_path(root);
    if pattern_given && exists|k: int| 0 <= k < nm.len() && !path_starts_with(nm[k], nr) {
        Err(
            (
                0,
                nm[choose|k: int|
                    0 <= k < nm.len() && !path_starts_with(nm[k], nr) && forall|k2: int|
                        0 <= k2 < k ==> path_starts_with(nm[k2], nr)],
            ),
        )
    } else if matched.len() == 0 {
        Err((if pattern_given { 1int } else { 2int }, Seq::empty()))
    } else {
        Ok(nm)
    }
}

/// What the paths matched by the patterns in order give: all of them, or the first refusal (its
/// kind, the path refused, and the pattern's index).
pub open spec fn matched_all(
    pattern_given: bool,
    patterns: Seq<Seq<char>>,
    root: Seq<char>,
    matched: Seq<Seq<Seq<char>>>,
) -> Result<Seq<Seq<char>>, (int, Seq<char>, int)>
    decreases patterns.len(),
{
    if patterns.len() == 0 || matched.len() == 0 {
        Ok(Seq::empty())
    } else {
        match matched_step(pattern_given, patterns[0], root, matched[0]) {
            Err((kind, path)) => Err((kind, path, 0)),
            Ok(v) => match matched_all(pattern_given, patterns.drop_first(), root, matched.drop_first()) {
                Ok(w) => Ok(v + w),
                Err((kind, path, at)) => Err((kind, path, at + 1)),
            },
        }
    }
}

/// `e` is the refusal `(kind, path, at)` for `patterns[at]`.
pub open spec fn match_error_ok(
    e: MatchError,
    kind: int,
    path: Seq<char>,
    pattern: Seq<char>,
    root: Seq<char>,
) -> bool {
    match e {
        MatchError::Outside { pattern: p, path: x, root: r } => kind == 0 && p@ == pattern && x@ == path
            && r@ == crate::paths::normalized_path(root),
        MatchError::NoMatch { pattern: p } => kind == 1 && p@ == pattern,
        MatchError::NoPackages { root: r } => kind == 2 && r@ == root,
    }
}

/// Each path normalized.
fn normalize_all(paths: &Vec<String>) -> (r: Vec<String>)
    ensures
        crate::dependency::strings_view(r@) == normalized_all(crate::dependency::strings_view(paths@)),
{
    let ghost v = crate::dependency::strings_view(paths@);
    let mut r: Vec<String> = Vec::new();
    let mut k: usize = 0;
    while k < paths.len()
        invariant
            k <= paths@.len(),
            v == crate::dependency::strings_view(paths@),
            crate::dependency::strings_view(r@) == normalized_all(v.take(k as int)),
        decreases paths@.len() - k,
    {
        let n = crate::paths::normalize_path(paths[k].as_str());
        let ghost before = crate::dependency::strings_view(r@);
        r.push(n);
        assert(v[k as int] == paths@[k as int]@);
        assert(crate::dependency::strings_view(r@) =~= before.push(n@));
        assert(v.take(k + 1) =~= v.take(k as int).push(v[k as int]));
        assert(normalized_all(v.take(k + 1)) =~= normalized_all(v.take(k as int)).push(
            crate::paths::normalized_path(v[k as int]),
        ));
        k = k + 1;
    }
    assert(v.take(paths@.len() as int) =~= v);
    r
}

/// The first of the paths that does not lie in `root`, if any.
fn first_outside(paths: &Vec<String>, root: &str) -> (r: Option<usize>)
    ensures
        ({
            let v = crate::dependency::strings_view(paths@);
            match r {
                Some(k) => k < v.len() && !path_starts_with(v[k as int], root@) && forall|k2: int|
                    0 <= k2 < k ==> path_starts_with(v[k2], root@),
                None => forall|k2: int| 0 <= k2 < v.len() ==> path_starts_with(v[k2], root@),
            }
        }),
{
    let ghost v = crate::dependency::strings_view(paths@);
    let mut k: usize = 0;
    while k < paths.len()
        invariant
            k <= paths@.len(),
            v == crate::dependency::strings_view(paths@),
            forall|k2: int| 0 <= k2 < k ==> path_starts_with(#[trigger] v[k2], root@),
        decreases paths@.len() - k,
    {
        if !starts_with_path(paths[k].as_str(), root) {
            return Some(k);
        }
        k = k + 1;
    }
    None
}

/// The paths of a library entry's packages, from what its patterns matched (one list per
/// pattern, in order; without a `pattern`, the one pattern is empty and matches the dependency's
/// root itself), each normalized: where a `pattern` was given, every normalized path must lie in
/// the normalized root; every pattern must match something.
pub fn matched_library_paths(
    pattern_given: bool,
    patterns: &Vec<String>,
    root: &str,
    matched: &Vec<Vec<String>>,
) -> (r: Result<Vec<String>, MatchError>)
    requires
        matched@.len() == patterns@.len(),
    ensures
        ({
            let pv = crate::dependency::strings_view(patterns@);
            let mv = matched@.map_values(|v: Vec<String>| crate::dependency::strings_view(v@));
            match r {
                Ok(paths) => matched_all(pattern_given, pv, root@, mv) == Ok::<Seq<Seq<char>>, (int, Seq<char>, int)>(
                    crate::dependency::strings_view(paths@),
                ),
                Err(e) => matched_all(pattern_given, pv, root@, mv) matches Err((kind, path, at))
                    && 0 <= at < pv.len() && match_error_ok(e, kind, path, pv[at], root@),
            }
        }),
{
    let ghost pv = crate::dependency::strings_view(patterns@);
    let ghost mv = matched@.map_values(|v: Vec<String>| crate::dependency::strings_view(v@));
    let nroot = crate::paths::normalize_path(root);
    let mut paths: Vec<String> = Vec::new();
    let mut i: usize = 0;
    proof {
        assert(pv.skip(0) =~= pv);
        assert(mv.skip(0) =~= mv);
        assert(crate::dependency::strings_view(paths@) =~= Seq::<Seq<char>>::empty());
        let whole = matched_all(pattern_given, pv, root@, mv);
        match whole {
            Ok(w) => assert(Seq::<Seq<char>>::empty() + w =~= w),
            Err(_) => {},
        }
    }
    while i < patterns.len()
        invariant
            i <= patterns@.len(),
            matched@.len() == patterns@.len(),
            pv == crate::dependency::strings_view(patterns@),
            mv == matched@.map_values(|v: Vec<String>| crate::dependency::strings_view(v@)),
            nroot@ == crate::paths::normalized_path(root@),
            matched_all(pattern_given, pv, root@, mv) == match matched_all(
                pattern_given,
                pv.skip(i as int),
                root@,
                mv.skip(i as int),
            ) {
                Ok(w) => Ok(crate::dependency::strings_view(paths@) + w),
                Err((kind, path, at)) => Err((kind, path, at + i)),
            },
        decreases patterns@.len() - i,
    {
        let raw = &matched[i];
        let ghost rawv = crate::dependency::strings_view(raw@);
        let ms = normalize_all(raw);
        let ghost msv = crate::dependency::strings_view(ms@);
        let ghost pat = patterns@[i as int]@;
        let ghost rest = matched_all(pattern_given, pv.skip(i + 1), root@, mv.skip(i + 1));
        proof {
            assert(mv[i as int] == rawv);
            assert(msv == normalized_all(rawv));
            assert(pv.skip(i as int)[0] == pat);
            assert(mv.skip(i as int)[0] == rawv);
            assert(pv.skip(i as int).drop_first() =~= pv.skip(i + 1));
            assert(mv.skip(i as int).drop_first() =~= mv.skip(i + 1));
        }
        if pattern_given {
            if let Some(k) = first_outside(&ms, nroot.as_str()) {
                proof {
                    let c = choose|c: int|
                        0 <= c < msv.len() && !path_starts_with(msv[c], nroot@) && forall|k2: int|
                            0 <= k2 < c ==> path_starts_with(msv[k2], nroot@);
                    assert(c == k) by {
                        if c < k {
                        } else if c > k {
                        }
                    }
                    assert(matched_step(pattern_given, pat, root@, rawv) == Err::<Seq<Seq<char>>, (int, Seq<char>)>((0, msv[k as int])));
                }
                return Err(
                    MatchError::Outside {
                        pattern: patterns[i].clone(),
                        path: ms[k].clone(),
                        root: nroot.clone(),
                    },
                );
            }
        }
        if raw.len() == 0 {
            if pattern_given {
                return Err(MatchError::NoMatch { pattern: patterns[i].clone() });
            }
            return Err(MatchError::NoPackages { root: root.to_owned() });
        }
        assert(matched_step(pattern_given, pat, root@, rawv) == Ok::<Seq<Seq<char>>, (int, Seq<char>)>(msv));
        let ghost before = crate::dependency::strings_view(paths@);
        let mut extra = ms;
        paths.append(&mut extra);
        proof {
            assert(crate::dependency::strings_view(paths@) =~= before + msv);
            match rest {
                Ok(w) => assert(before + (msv + w) =~= (before + msv) + w),
                Err(_) => {},
            }
        }
        i = i + 1;
    }
    proof {
        assert(pv.skip(i as int).len() == 0);
        assert(crate::dependency::strings_view(paths@) + Seq::<Seq<char>>::empty() =~= crate::dependency::strings_view(paths@));
    }
    Ok(paths)
}


/// Library entries were found both in the workspace's `Cargo.toml` and in its `dylint.toml`.
#[derive(Debug)]
pub struct LibrariesInBothError;

impl LibrariesInBothError {
    /// The text with which the refusal is reported.
    pub fn message(&self) -> (r: String)
        ensures
            r@ == "`workspace.metadata.dylint.libraries` cannot appear in both Cargo.toml and dylint.toml"@,
    {
        let mut m = String::new();
        append_str(
            &mut m,
            "`workspace.metadata.dylint.libraries` cannot appear in both Cargo.toml and dylint.toml",
        );
        m
    }
}

/// The library packages of a workspace, from the entries of its `Cargo.toml` and those of its
/// `dylint.toml`: refused where both files name libraries, the two lists one after the other
/// otherwise.
pub fn combined_library_packages<T>(from_cargo_toml: Vec<T>, from_dylint_toml: Vec<T>) -> (r:
    Result<Vec<T>, LibrariesInBothError>)
    ensures
        r is Err <==> (from_cargo_toml@.len() > 0 && from_dylint_toml@.len() > 0),
        r matches Ok(v) ==> v@ == from_cargo_toml@ + from_dylint_toml@,
{
    if from_cargo_toml.len() > 0 && from_dylint_toml.len() > 0 {
        return Err(LibrariesInBothError);
    }
    let mut packages = from_cargo_toml;
    let mut other = from_dylint_toml;
    packages.append(&mut other);
    Ok(packages)
}

/// The key under which a workspace's Dylint metadata lists its libraries.
pub open spec fn libraries_key() -> Seq<char> {
    "libraries"@
}

/// Where the keys of a Dylint metadata table are read in order, the position of the first key
/// other than `libraries` (which is refused as unknown), if there is one.
pub fn first_unknown_key(keys: &Vec<String>) -> (r: Option<usize>)
    ensures
        match r {
            Some(i) => i < keys@.len() && keys@[i as int]@ != libraries_key() && forall|j: int|
                0 <= j < i ==> #[trigger] keys@[j]@ == libraries_key(),
            None => forall|j: int| 0 <= j < keys@.len() ==> #[trigger] keys@[j]@ == libraries_key(),
        },
{
    let libraries = "libraries".to_string();
    let mut i: usize = 0;
    while i < keys.len()
        invariant
            i <= keys@.len(),
            libraries@ == libraries_key(),
            forall|j: int| 0 <= j < i ==> #[trigger] keys@[j]@ == libraries_key(),
        decreases keys@.len() - i,
    {
        if keys[i] != libraries {
            return Some(i);
        }
        i = i + 1;
    }
    None
}


/// Why a workspace's Dylint metadata (`workspace.metadata.dylint`) is refused.
#[derive(Debug)]
pub enum MetadataError {
    /// The `dylint` value is not a table (a map, in `cargo metadata`'s JSON).
    NotATable,
    /// A key other than `libraries`: the first one met, and the position of a `libraries` key
    /// met before it (whose entries are read, and may fail, before this refusal).
    UnknownKey { key: String, libraries_before: Option<usize> },
}

impl MetadataError {
    /// The text with which the refusal is reported; the value is called a map where it was read
    /// from `cargo metadata`, a table where it was read from `dylint.toml`.
    pub fn message(&self, from_dylint_toml: bool) -> (r: String)
        ensures
            match self {
                MetadataError::NotATable => r@ == (if from_dylint_toml {
                    "`dylint` value must be a table"@
                } else {
                    "`dylint` value must be a map"@
                }),
                MetadataError::UnknownKey { key, .. } => r@ == "Unknown key `"@ + key@ + "`"@,
            },
    {
        let mut m = String::new();
        match self {
            MetadataError::NotATable => {
                if from_dylint_toml {
                    append_str(&mut m, "`dylint` value must be a table");
                } else {
                    append_str(&mut m, "`dylint` value must be a map");
                }
            },
            MetadataError::UnknownKey { key, .. } => {
                append_str(&mut m, "Unknown key `");
                append_str(&mut m, key.as_str());
                append_str(&mut m, "`");
            },
        }
        m
    }
}

/// What the keys of a workspace's Dylint metadata give, read in order: a value that is not a
/// table is refused; else the first key other than `libraries` is refused (after a `libraries`
/// key before it, if any, is read); else the libraries are at the first key, where there is one.
pub fn dylint_metadata_libraries(is_table: bool, keys: &Vec<String>) -> (r: Result<
    Option<usize>,
    MetadataError,
>)
    ensures
        !is_table ==> r matches Err(MetadataError::NotATable),
        is_table ==> match r {
            Ok(p) => (forall|j: int| 0 <= j < keys@.len() ==> #[trigger] keys@[j]@ == libraries_key())
                && p == (if keys@.len() > 0 {
                Some(0usize)
            } else {
                None
            }),
            Err(MetadataError::UnknownKey { key, libraries_before }) => exists|u: int|
                0 <= u < keys@.len() && keys@[u]@ != libraries_key() && key@ == keys@[u]@ && (forall|
                    j: int,
                | 0 <= j < u ==> #[trigger] keys@[j]@ == libraries_key()) && libraries_before == (if u
                    > 0 {
                    Some(0usize)
                } else {
                    None
                }),
            Err(MetadataError::NotATable) => false,
        },
{
    if !is_table {
        return Err(MetadataError::NotATable);
    }
    match first_unknown_key(keys) {
        Some(u) => Err(
            MetadataError::UnknownKey {
                key: keys[u].clone(),
                libraries_before: if u > 0 {
                    Some(0)
                } else {
                    None
                },
            },
        ),
        None => Ok(
            if keys.len() > 0 {
                Some(0)
            } else {
                None
            },
        ),
    }
}

/// What to do after an attempt to find a git dependency's root in Cargo's checkouts.
#[derive(Debug)]
pub enum AttemptStep {
    /// The root was found.
    Found(String),
    /// Fetch again: the first fetch may only have created the checkout's directory.
    Retry,
    /// Both attempts failed; the errors collected are reported.
    GiveUp,
}

/// The number of attempts to find a git dependency's root.
pub open spec fn root_attempts() -> usize {
    2
}

/// Decides, after attempt number `attempt` (counting from 0) found `outcome`, what comes next:
/// a root found ends the search; a failure is recorded, and leads to another attempt after the
/// first and to giving up after the second.
pub fn root_attempt(attempt: usize, outcome: Result<String, AccessedError>, errors: &mut Vec<AccessedError>) -> (r: AttemptStep)
    requires
        attempt < root_attempts(),
    ensures
        match outcome {
            Ok(p) => r matches AttemptStep::Found(q) && q@ == p@ && final(errors)@ == old(errors)@,
            Err(e) => final(errors)@ == old(errors)@.push(e) && (if attempt + 1 < root_attempts() {
                r is Retry
            } else {
                r is GiveUp
            }),
        },
{
    match outcome {
        Ok(p) => AttemptStep::Found(p),
        Err(e) => {
            errors.push(e);
            if attempt + 1 < 2 {
                AttemptStep::Retry
            } else {
                AttemptStep::GiveUp
            }
        },
    }
}
} // verus!
