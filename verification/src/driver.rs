//! The package from which a Dylint driver is built for a toolchain, and whether an installed
//! driver is older than this library.

use vstd::prelude::*;
use crate::revs::{parse_semver, semver_precedes, version_lt, version_triple};
use crate::text::{append_str, chars_of, push_char, string_from_chars, sub_chars, trim_end_chars, trim_end_spec};

verus! {

/// The manifest of the driver package for `toolchain`, whose `dylint_driver` dependency is
/// specified by `spec`.
pub open spec fn cargo_toml_text(toolchain: Seq<char>, spec: Seq<char>) -> Seq<char> {
    "\n[package]\nname = \"dylint_driver-"@ + toolchain
        + "\"\nversion = \"0.1.0\"\nedition = \"2018\"\n\n[dependencies]\nanyhow = \"1.0\"\nenv_logger = \"0.11\"\ndylint_driver = { "@
        + spec + " }\n"@
}

/// The `rust-toolchain` file of the driver package for `toolchain`.
pub open spec fn rust_toolchain_text(toolchain: Seq<char>) -> Seq<char> {
    "\n[toolchain]\nchannel = \""@ + toolchain
        + "\"\ncomponents = [\"llvm-tools-preview\", \"rustc-dev\"]\n"@
}

/// `s` with each backslash doubled.
pub open spec fn escape_backslashes(s: Seq<char>) -> Seq<char>
    decreases s.len(),
{
    if s.len() == 0 {
        Seq::empty()
    } else {
        escape_backslashes(s.drop_last()) + if s.last() == '\\' {
            seq!['\\', '\\']
        } else {
            seq![s.last()]
        }
    }
}

/// How the driver package depends on `dylint_driver`: the exact `version`, and the local
/// `path` (backslashes escaped) where one is given.
pub open spec fn driver_dependency_text(version: Seq<char>, path: Option<Seq<char>>) -> Seq<char> {
    "version = \"="@ + version + "\""@ + match path {
        Some(p) => ", path = \""@ + escape_backslashes(p) + "\""@,
        None => Seq::empty(),
    }
}

/// The manifest of the driver package for `toolchain`.
pub fn cargo_toml(toolchain: &str, dylint_driver_spec: &str) -> (r: String)
    ensures
        r@ == cargo_toml_text(toolchain@, dylint_driver_spec@),
{
    let mut s = String::new();
    append_str(&mut s, "\n[package]\nname = \"dylint_driver-");
    append_str(&mut s, toolchain);
    append_str(
        &mut s,
        "\"\nversion = \"0.1.0\"\nedition = \"2018\"\n\n[dependencies]\nanyhow = \"1.0\"\nenv_logger = \"0.11\"\ndylint_driver = { ",
    );
    append_str(&mut s, dylint_driver_spec);
    append_str(&mut s, " }\n");
    s
}

/// The `rust-toolchain` file of the driver package for `toolchain`.
pub fn rust_toolchain(toolchain: &str) -> (r: String)
    ensures
        r@ == rust_toolchain_text(toolchain@),
{
    let mut s = String::new();
    append_str(&mut s, "\n[toolchain]\nchannel = \"");
    append_str(&mut s, toolchain);
    append_str(&mut s, "\"\ncomponents = [\"llvm-tools-preview\", \"rustc-dev\"]\n");
    s
}

/// `s` with each backslash doubled.
pub fn escape_backslashes_of(s: &str) -> (r: String)
    ensures
        r@ == escape_backslashes(s@),
{
    let cs = chars_of(s);
    let mut r = String::new();
    let mut i: usize = 0;
    assert(s@.take(0) =~= Seq::<char>::empty());
    while i < cs.len()
        invariant
            cs@ == s@,
            i <= cs@.len(),
            r@ == escape_backslashes(s@.take(i as int)),
        decreases cs@.len() - i,
    {
        let c = cs[i];
        assert(s@.take(i + 1).drop_last() =~= s@.take(i as int));
        assert(s@.take(i + 1).last() == c);
        if c == '\\' {
            push_char(&mut r, '\\');
            push_char(&mut r, '\\');
            assert(r@ =~= escape_backslashes(s@.take(i as int)) + seq!['\\', '\\']);
        } else {
            push_char(&mut r, c);
            assert(r@ =~= escape_backslashes(s@.take(i as int)) + seq![c]);
        }
        i = i + 1;
    }
    assert(s@.take(cs@.len() as int) =~= s@);
    r
}

/// How the driver package depends on `dylint_driver`: version `version` exactly, and, where the
/// driver's sources are at hand, their directory.
pub fn driver_dependency_spec(version: &str, manifest_dir: Option<&str>) -> (r: String)
    ensures
        r@ == driver_dependency_text(
            version@,
            match manifest_dir {
                Some(p) => Some(p@),
                None => None,
            },
        ),
{
    let mut s = String::new();
    append_str(&mut s, "version = \"=");
    append_str(&mut s, version);
    append_str(&mut s, "\"");
    match manifest_dir {
        Some(p) => {
            append_str(&mut s, ", path = \"");
            let e = escape_backslashes_of(p);
            append_str(&mut s, e.as_str());
            append_str(&mut s, "\"");
        },
        None => {
            assert(s@ =~= s@ + Seq::<char>::empty());
        },
    }
    s
}

/// The position of the last space in `s`, if any.
pub open spec fn last_space(s: Seq<char>) -> Option<int> {
    if exists|i: int| 0 <= i < s.len() && s[i] == ' ' {
        Some(
            choose|i: int|
                0 <= i < s.len() && s[i] == ' ' && forall|j: int| i < j < s.len() ==> s[j] != ' ',
        )
    } else {
        None
    }
}

/// The driver's version as it reports it: the last word of its output, less trailing white space.
pub open spec fn reported_version(stdout: Seq<char>) -> Option<Seq<char>> {
    match last_space(trim_end_spec(stdout)) {
        Some(i) => Some(trim_end_spec(stdout).skip(i + 1)),
        None => None,
    }
}

/// Why an installed driver's version could not be compared with this library's.
#[derive(Debug)]
pub enum DriverVersionError {
    /// The driver's output holds no space before its version.
    NotReported,
    /// The driver's version is not a semantic version; it is given.
    Unparsable(String),
    /// This library's own version is not a semantic version.
    OwnUnparsable,
}

/// Whether a driver whose `-V` output is `stdout` is older than version `ours` (the driver's
/// version being the last word of its output).
pub fn driver_is_outdated(stdout: &str, ours: &str) -> (r: Result<bool, DriverVersionError>)
    ensures
        match r {
            Err(DriverVersionError::NotReported) => reported_version(stdout@) is None,
            Err(DriverVersionError::Unparsable(v)) => reported_version(stdout@) == Some(v@)
                && parse_semver(v@) is None,
            Err(DriverVersionError::OwnUnparsable) => reported_version(stdout@) matches Some(v)
                && parse_semver(v) is Some && parse_semver(ours@) is None,
            Ok(b) => reported_version(stdout@) matches Some(v) && parse_semver(v) is Some
                && parse_semver(ours@) is Some && b == semver_precedes(v, ours@),
        },
{
    let all = chars_of(stdout);
    let t = trim_end_chars(&all);
    let ghost tv = t@;
    let mut k: usize = t.len();
    while k > 0 && t[k - 1] != ' '
        invariant
            t@ == tv,
            k <= tv.len(),
            forall|j: int| k <= j < tv.len() ==> tv[j] != ' ',
        decreases k,
    {
        k = k - 1;
    }
    if k == 0 {
        assert(!exists|i: int| 0 <= i < tv.len() && tv[i] == ' ');
        return Err(DriverVersionError::NotReported);
    }
    proof {
        let i = (k - 1) as int;
        assert(tv[i] == ' ');
        let c = choose|i: int|
            0 <= i < tv.len() && tv[i] == ' ' && forall|j: int| i < j < tv.len() ==> tv[j] != ' ';
        assert(c == i) by {
            if c < i {
            } else if c > i {
            }
        }
    }
    let word_chars = sub_chars(&t, k, t.len());
    let word = string_from_chars(word_chars.as_slice());
    assert(word@ =~= tv.skip(k as int));
    if version_triple(word.as_str()).is_none() {
        return Err(DriverVersionError::Unparsable(word));
    }
    if version_triple(ours).is_none() {
        return Err(DriverVersionError::OwnUnparsable);
    }
    Ok(version_lt(word.as_str(), ours))
}

} // verus!
