//! Facts about a Clippy checkout: the `clippy_utils` version that goes with a Rust version, and
//! the version that the checkout's `clippy_utils` manifest declares.

use vstd::prelude::*;
use crate::revs::{parse_semver, version_triple};
use crate::text::{append_str, push_char, starts_with};

verus! {

/// The decimal digit for `d` (`d < 10`).
pub open spec fn decimal_digit(d: nat) -> char {
    if d == 0 {
        '0'
    } else if d == 1 {
        '1'
    } else if d == 2 {
        '2'
    } else if d == 3 {
        '3'
    } else if d == 4 {
        '4'
    } else if d == 5 {
        '5'
    } else if d == 6 {
        '6'
    } else if d == 7 {
        '7'
    } else if d == 8 {
        '8'
    } else {
        '9'
    }
}

/// `n` written in decimal, without leading zeros.
pub open spec fn decimal(n: nat) -> Seq<char>
    decreases n,
{
    if n < 10 {
        seq![decimal_digit(n)]
    } else {
        decimal(n / 10) + seq![decimal_digit(n % 10)]
    }
}

fn decimal_digit_of(d: u64) -> (c: char)
    requires
        d < 10,
    ensures
        c == decimal_digit(d as nat),
{
    if d == 0 {
        '0'
    } else if d == 1 {
        '1'
    } else if d == 2 {
        '2'
    } else if d == 3 {
        '3'
    } else if d == 4 {
        '4'
    } else if d == 5 {
        '5'
    } else if d == 6 {
        '6'
    } else if d == 7 {
        '7'
    } else if d == 8 {
        '8'
    } else {
        '9'
    }
}

/// Appends `n` in decimal to `s`.
pub fn push_decimal(s: &mut String, n: u64)
    ensures
        final(s)@ == old(s)@ + decimal(n as nat),
    decreases n,
{
    if n >= 10 {
        push_decimal(s, n / 10);
    }
    push_char(s, decimal_digit_of(n % 10));
    assert(final(s)@ =~= old(s)@ + decimal(n as nat)) by {
        if n < 10 {
            assert(n % 10 == n);
        }
    }
}

/// A Rust version with any `rust-` prefix removed.
pub open spec fn without_rust_prefix(s: Seq<char>) -> Seq<char> {
    if "rust-"@.is_prefix_of(s) {
        s.skip("rust-"@.len() as int)
    } else {
        s
    }
}

/// The `clippy_utils` version that goes with a Rust version `major.minor.patch`:
/// `0.major.minor`.
pub open spec fn clippy_utils_version_text(major: u64, minor: u64) -> Seq<char> {
    "0."@ + decimal(major as nat) + "."@ + decimal(minor as nat)
}

/// A Rust version that is not a semantic version.
#[derive(Debug)]
pub struct RustVersionError;

/// The `clippy_utils` version that goes with a Rust version (`rust-` prefix optional): `0.` then
/// the Rust version's major and minor numbers. Fails where the Rust version is not a semantic
/// version.
pub fn clippy_utils_version_from_rust_version(rust_version: &str) -> (r: Result<String, RustVersionError>)
    ensures
        match r {
            Ok(v) => parse_semver(without_rust_prefix(rust_version@)) matches Some((major, minor, _))
                && v@ == clippy_utils_version_text(major, minor),
            Err(_) => parse_semver(without_rust_prefix(rust_version@)) is None,
        },
{
    let cs = crate::text::chars_of(rust_version);
    let from: usize = if starts_with(rust_version, "rust-") {
        proof {
            reveal_strlit("rust-");
        }
        5
    } else {
        0
    };
    let rest = crate::text::sub_chars(&cs, from, cs.len());
    let version = crate::text::string_from_chars(rest.as_slice());
    assert(version@ =~= without_rust_prefix(rust_version@)) by {
        reveal_strlit("rust-");
    }
    match version_triple(version.as_str()) {
        None => Err(RustVersionError),
        Some((major, minor, _)) => {
            let mut s = String::new();
            append_str(&mut s, "0.");
            push_decimal(&mut s, major);
            append_str(&mut s, ".");
            push_decimal(&mut s, minor);
            Ok(s)
        },
    }
}

/// The string at `package.version` in a manifest, where the manifest is a TOML document that has
/// one.
pub uninterp spec fn manifest_package_version(contents: Seq<char>) -> Option<Seq<char>>;

/// `toml_edit`: parses `contents` as a `DocumentMut` and reads the string at `package.version`
/// (`Table::get`, `Item::as_table`, `Item::as_str`). Claims that the outcome is determined by
/// `contents` alone; what it is is not stated.
#[verifier::external_body]
fn package_version_in(contents: &str) -> (r: Option<String>)
    ensures
        r matches Some(v) ==> manifest_package_version(contents@) == Some(v@),
        r is None ==> manifest_package_version(contents@) is None,
{
    let document = contents.parse::<toml_edit::DocumentMut>().ok()?;
    document
        .get("package")
        .and_then(toml_edit::Item::as_table)
        .and_then(|table| table.get("version"))
        .and_then(toml_edit::Item::as_str)
        .map(ToOwned::to_owned)
}

/// The `clippy_utils` manifest declares no version.
#[derive(Debug)]
pub struct NoVersionError;

/// The version that a `clippy_utils` manifest declares (its `package.version`); fails where the
/// manifest is no TOML document or declares none.
pub fn version(contents: &str) -> (r: Result<String, NoVersionError>)
    ensures
        match r {
            Ok(v) => manifest_package_version(contents@) == Some(v@),
            Err(_) => manifest_package_version(contents@) is None,
        },
{
    match package_version_in(contents) {
        Some(v) => Ok(v),
        None => Err(NoVersionError),
    }
}

/// A line of `s` starts at `b` and begins with `channel = "`.
pub open spec fn channel_line(s: Seq<char>, b: int) -> bool {
    crate::library::is_line_start(s, b) && "channel = \""@.is_prefix_of(crate::library::line_text(s, b))
}

/// The channel that a `rust-toolchain` file names: on its first line that begins with
/// `channel = "`, what follows up to a closing `"` that ends the line (`None` where there is no
/// such line, or it does not end so).
pub open spec fn toolchain_channel(s: Seq<char>) -> Option<Seq<char>> {
    if exists|b: int| channel_line(s, b) {
        let b = choose|b: int| channel_line(s, b) && forall|b2: int| 0 <= b2 < b ==> !channel_line(s, b2);
        let rest = crate::library::line_text(s, b).skip("channel = \""@.len() as int);
        if rest.len() > 0 && rest.last() == '"' {
            Some(rest.drop_last())
        } else {
            None
        }
    } else {
        None
    }
}

/// The `rust-toolchain` file names no channel.
#[derive(Debug)]
pub struct NoChannelError;

/// Where the line that starts at `b` ends, and its text (see [`crate::library::line_text`]).
fn line_at(cs: &Vec<char>, b: usize) -> (r: (usize, Vec<char>))
    requires
        crate::library::is_line_start(cs@, b as int),
    ensures
        r.0 == crate::library::line_end(cs@, b as int),
        b < r.0 <= cs@.len(),
        r.0 == cs@.len() || cs@[r.0 - 1] == '\n',
        r.1@ == crate::library::line_text(cs@, b as int),
        forall|b2: int| b < b2 < r.0 ==> !crate::library::is_line_start(cs@, b2),
{
    let ghost sv = cs@;
    let n = cs.len();
    let mut e: usize = b;
    while e < n && cs[e] != '\n'
        invariant
            cs@ == sv,
            n == sv.len(),
            b <= e <= n,
            crate::library::line_end(sv, b as int) == crate::library::line_end(sv, e as int),
            forall|k: int| b <= k < e ==> sv[k] != '\n',
        decreases n - e,
    {
        e = e + 1;
    }
    let end: usize = if e < n {
        e + 1
    } else {
        n
    };
    let mut stop = e;
    if e < n && stop > b && cs[stop - 1] == '\r' {
        stop = stop - 1;
    }
    let text = crate::text::sub_chars(cs, b, stop);
    proof {
        let l = sv.subrange(b as int, end as int);
        if e < n {
            assert(l.drop_last() =~= sv.subrange(b as int, e as int));
        } else {
            assert(l =~= sv.subrange(b as int, e as int));
        }
        assert(text@ =~= crate::library::line_text(sv, b as int));
        assert forall|b2: int| b < b2 < end implies !crate::library::is_line_start(sv, b2) by {
            assert(sv[b2 - 1] != '\n');
        }
    }
    (end, text)
}

/// Whether `prefix` is a prefix of `s`.
fn chars_start_with(s: &Vec<char>, prefix: &Vec<char>) -> (r: bool)
    ensures
        r == prefix@.is_prefix_of(s@),
{
    if prefix.len() > s.len() {
        return false;
    }
    let mut k: usize = 0;
    while k < prefix.len()
        invariant
            prefix@.len() <= s@.len(),
            k <= prefix@.len(),
            forall|j: int| 0 <= j < k ==> s@[j] == prefix@[j],
        decreases prefix@.len() - k,
    {
        if s[k] != prefix[k] {
            return false;
        }
        k = k + 1;
    }
    assert(s@.take(prefix@.len() as int) =~= prefix@);
    true
}

/// What follows `channel = "` on a line that begins so, up to a closing `"` that ends it.
fn quoted_rest(text: &Vec<char>, n_prefix: usize) -> (r: Option<String>)
    requires
        n_prefix <= text@.len(),
    ensures
        ({
            let rest = text@.skip(n_prefix as int);
            if rest.len() > 0 && rest.last() == '"' {
                r matches Some(v) && v@ == rest.drop_last()
            } else {
                r is None
            }
        }),
{
    let rest = crate::text::sub_chars(text, n_prefix, text.len());
    assert(rest@ =~= text@.skip(n_prefix as int));
    if rest.len() > 0 && rest[rest.len() - 1] == '"' {
        let value = crate::text::sub_chars(&rest, 0, rest.len() - 1);
        assert(value@ =~= rest@.drop_last());
        Some(crate::text::string_from_chars(value.as_slice()))
    } else {
        None
    }
}

/// The channel that a `rust-toolchain` file names (see [`toolchain_channel`]).
pub fn channel(contents: &str) -> (r: Result<String, NoChannelError>)
    ensures
        match r {
            Ok(c) => toolchain_channel(contents@) == Some(c@),
            Err(_) => toolchain_channel(contents@) is None,
        },
{
    let cs = crate::text::chars_of(contents);
    let ghost sv = contents@;
    let prefix = crate::text::chars_of("channel = \"");
    let n = cs.len();
    let mut b: usize = 0;
    while b < n
        invariant
            cs@ == sv,
            sv == contents@,
            prefix@ == "channel = \""@,
            n == sv.len(),
            b <= n,
            b == 0 || b == n || sv[b - 1] == '\n',
            forall|b2: int| 0 <= b2 < b ==> !channel_line(sv, b2),
        decreases n - b,
    {
        let (end, text) = line_at(&cs, b);
        if chars_start_with(&text, &prefix) {
            assert(channel_line(sv, b as int));
            proof {
                let c = choose|c: int| channel_line(sv, c) && forall|b2: int| 0 <= b2 < c ==> !channel_line(sv, b2);
                assert(c == b) by {
                    if c < b {
                    } else if c > b {
                    }
                }
            }
            return match quoted_rest(&text, prefix.len()) {
                Some(v) => Ok(v),
                None => Err(NoChannelError),
            };
        }
        b = end;
    }
    assert(!exists|b: int| channel_line(sv, b));
    Err(NoChannelError)
}


// ---------------------------------------------------------------------------------------------
// Nightly channels
// ---------------------------------------------------------------------------------------------

/// `c` is a decimal digit.
pub open spec fn is_digit(c: char) -> bool {
    ('0' as u32) <= (c as u32) <= ('9' as u32)
}

/// The value of a string of decimal digits.
pub open spec fn digits_value(s: Seq<char>) -> nat
    decreases s.len(),
{
    if s.len() == 0 {
        0
    } else {
        digits_value(s.drop_last()) * 10 + ((s.last() as u32) - ('0' as u32)) as nat
    }
}

/// `s` is a non-empty string of decimal digits whose value fits in a `u32`.
pub open spec fn is_u32_digits(s: Seq<char>) -> bool {
    &&& s.len() > 0
    &&& forall|k: int| 0 <= k < s.len() ==> is_digit(#[trigger] s[k])
    &&& digits_value(s) <= u32::MAX
}

/// `i` is where the first `-` of `s` is.
pub open spec fn is_first_dash(s: Seq<char>, i: int) -> bool {
    &&& 0 <= i < s.len()
    &&& s[i] == '-'
    &&& forall|k: int| 0 <= k < i ==> #[trigger] s[k] != '-'
}

/// The year, month and day of a channel of the form `nightly-Y-M-D` (each field decimal digits
/// that fit in a `u32`); `None` for any other channel.
pub open spec fn nightly_date(c: Seq<char>) -> Option<(u32, u32, u32)> {
    if c.len() >= 8 && c.take(8) == "nightly-"@ {
        let r = c.skip(8);
        if exists|i: int| is_first_dash(r, i) {
            let i = choose|i: int| is_first_dash(r, i);
            let rest = r.skip(i + 1);
            if exists|j: int| is_first_dash(rest, j) {
                let j = choose|j: int| is_first_dash(rest, j);
                let (y, m, d) = (r.take(i), rest.take(j), rest.skip(j + 1));
                if is_u32_digits(y) && is_u32_digits(m) && is_u32_digits(d) {
                    Some((digits_value(y) as u32, digits_value(m) as u32, digits_value(d) as u32))
                } else {
                    None
                }
            } else {
                None
            }
        } else {
            None
        }
    } else {
        None
    }
}

/// Date `a` comes before date `b` (year, then month, then day).
pub open spec fn date_lt(a: (u32, u32, u32), b: (u32, u32, u32)) -> bool {
    a.0 < b.0 || (a.0 == b.0 && (a.1 < b.1 || (a.1 == b.1 && a.2 < b.2)))
}

proof fn lemma_digits_value_prefix(s: Seq<char>, k: int)
    requires
        0 <= k <= s.len(),
        forall|i: int| 0 <= i < s.len() ==> is_digit(#[trigger] s[i]),
    ensures
        digits_value(s.take(k)) <= digits_value(s),
    decreases s.len(),
{
    if k < s.len() {
        let t = s.drop_last();
        assert(t.take(k) =~= s.take(k));
        assert forall|i: int| 0 <= i < t.len() implies is_digit(#[trigger] t[i]) by {
            assert(t[i] == s[i]);
        }
        lemma_digits_value_prefix(t, k);
        assert(is_digit(s[s.len() - 1]));
    } else {
        assert(s.take(k) =~= s);
    }
}

/// The value of a string of decimal digits that fits in a `u32`; `None` for anything else.
fn parse_u32_digits(s: &Vec<char>) -> (r: Option<u32>)
    ensures
        match r {
            Some(v) => is_u32_digits(s@) && v == digits_value(s@),
            None => !is_u32_digits(s@),
        },
{
    if s.len() == 0 {
        return None;
    }
    let mut acc: u64 = 0;
    let mut i: usize = 0;
    assert(s@.take(0) =~= Seq::<char>::empty());
    while i < s.len()
        invariant
            i <= s@.len(),
            forall|k: int| 0 <= k < i ==> is_digit(#[trigger] s@[k]),
            acc == digits_value(s@.take(i as int)),
            acc <= u32::MAX,
        decreases s@.len() - i,
    {
        let c = s[i];
        if !(('0' as u32) <= (c as u32) && (c as u32) <= ('9' as u32)) {
            assert(!is_digit(s@[i as int]));
            return None;
        }
        let d: u64 = ((c as u32) - ('0' as u32)) as u64;
        assert(s@.take(i + 1).drop_last() =~= s@.take(i as int));
        assert(s@.take(i + 1).last() == c);
        let next: u64 = acc * 10 + d;
        assert(next == digits_value(s@.take(i + 1)));
        if next > 4294967295u64 {
            proof {
                if forall|k: int| 0 <= k < s@.len() ==> is_digit(#[trigger] s@[k]) {
                    lemma_digits_value_prefix(s@, i + 1);
                }
            }
            return None;
        }
        acc = next;
        i = i + 1;
    }
    assert(s@.take(s@.len() as int) =~= s@);
    Some(acc as u32)
}

/// Where the first `-` of `s` is, if it has one.
fn first_dash(s: &Vec<char>) -> (r: Option<usize>)
    ensures
        match r {
            Some(i) => is_first_dash(s@, i as int),
            None => !exists|i: int| is_first_dash(s@, i),
        },
{
    let mut i: usize = 0;
    while i < s.len()
        invariant
            i <= s@.len(),
            forall|k: int| 0 <= k < i ==> #[trigger] s@[k] != '-',
        decreases s@.len() - i,
    {
        if s[i] == '-' {
            return Some(i);
        }
        i = i + 1;
    }
    proof {
        assert forall|k: int| !is_first_dash(s@, k) by {
            if is_first_dash(s@, k) {
                assert(s@[k] != '-');
            }
        }
    }
    None
}

/// The date of a nightly channel (see [`nightly_date`]).
pub fn parse_nightly(channel: &str) -> (r: Option<(u32, u32, u32)>)
    ensures
        r == nightly_date(channel@),
{
    let cs = crate::text::chars_of(channel);
    let ghost c = channel@;
    proof {
        reveal_strlit("nightly-");
    }
    if cs.len() < 8 || !starts_with(channel, "nightly-") {
        proof {
            if c.len() >= 8 && c.take(8) == "nightly-"@ {
                assert("nightly-"@.is_prefix_of(c));
            }
        }
        return None;
    }
    assert(c.take(8) =~= "nightly-"@);
    let r = crate::text::sub_chars(&cs, 8, cs.len());
    assert(r@ =~= c.skip(8));
    let i = match first_dash(&r) {
        Some(i) => i,
        None => return None,
    };
    assert(i as int == choose|k: int| is_first_dash(r@, k)) by {
        let k = choose|k: int| is_first_dash(r@, k);
        if k < i {
            assert(r@[k] == '-');
        } else if k > i {
            assert(r@[i as int] == '-');
        }
    }
    let rest = crate::text::sub_chars(&r, i + 1, r.len());
    assert(rest@ =~= r@.skip(i + 1));
    let j = match first_dash(&rest) {
        Some(j) => j,
        None => return None,
    };
    assert(j as int == choose|k: int| is_first_dash(rest@, k)) by {
        let k = choose|k: int| is_first_dash(rest@, k);
        if k < j {
            assert(rest@[k] == '-');
        } else if k > j {
            assert(rest@[j as int] == '-');
        }
    }
    let y = crate::text::sub_chars(&r, 0, i);
    let m = crate::text::sub_chars(&rest, 0, j);
    let d = crate::text::sub_chars(&rest, j + 1, rest.len());
    assert(y@ =~= r@.take(i as int));
    assert(m@ =~= rest@.take(j as int));
    assert(d@ =~= rest@.skip(j + 1));
    match (parse_u32_digits(&y), parse_u32_digits(&m), parse_u32_digits(&d)) {
        (Some(yv), Some(mv), Some(dv)) => Some((yv, mv, dv)),
        _ => None,
    }
}

/// An upgrade from `old_channel` to `new_channel` is refused: both are nightly channels, the new
/// one is older, and `--allow-downgrade` was not given.
pub open spec fn downgrade_refused(allow_downgrade: bool, new_channel: Seq<char>, old_channel: Seq<char>) -> bool {
    &&& !allow_downgrade
    &&& nightly_date(new_channel) is Some
    &&& nightly_date(old_channel) is Some
    &&& date_lt(nightly_date(new_channel)->0, nightly_date(old_channel)->0)
}

/// Whether an upgrade from the channel `old_channel` to `new_channel` is refused: where both are
/// nightly channels, the new one is older, and `--allow-downgrade` was not given.
pub fn refuses_downgrade(allow_downgrade: bool, new_channel: &str, old_channel: &str) -> (r: bool)
    ensures
        r == downgrade_refused(allow_downgrade, new_channel@, old_channel@),
{
    if allow_downgrade {
        return false;
    }
    match (parse_nightly(new_channel), parse_nightly(old_channel)) {
        (Some(n), Some(o)) => n.0 < o.0 || (n.0 == o.0 && (n.1 < o.1 || (n.1 == o.1 && n.2 < o.2))),
        _ => false,
    }
}


/// The nightly channel of a date: `nightly-Y-M-D`, each field in decimal without leading zeros.
pub open spec fn nightly_channel(y: u32, m: u32, d: u32) -> Seq<char> {
    "nightly-"@ + decimal(y as nat) + "-"@ + decimal(m as nat) + "-"@ + decimal(d as nat)
}

proof fn lemma_decimal_digit(d: nat)
    requires
        d < 10,
    ensures
        is_digit(decimal_digit(d)),
        (decimal_digit(d) as u32) - ('0' as u32) == d,
{
}

proof fn lemma_decimal_digits(n: nat)
    ensures
        decimal(n).len() > 0,
        forall|k: int| 0 <= k < decimal(n).len() ==> is_digit(#[trigger] decimal(n)[k]),
        digits_value(decimal(n)) == n,
    decreases n,
{
    if n < 10 {
        lemma_decimal_digit(n);
        let s = decimal(n);
        assert(s.drop_last() =~= Seq::<char>::empty());
        assert(s.last() == decimal_digit(n));
        assert(digits_value(s.drop_last()) == 0);
        assert(digits_value(s) == n);
    } else {
        lemma_decimal_digits(n / 10);
        lemma_decimal_digit(n % 10);
        let p = decimal(n / 10);
        let s = decimal(n);
        assert(s == p + seq![decimal_digit(n % 10)]);
        assert(s.drop_last() =~= p);
        assert forall|k: int| 0 <= k < s.len() implies is_digit(#[trigger] s[k]) by {
            if k < p.len() {
                assert(s[k] == p[k]);
            }
        }
        assert(s.last() == decimal_digit(n % 10));
        assert(digits_value(s) == digits_value(p) * 10 + n % 10);
        assert(n == (n / 10) * 10 + n % 10);
    }
}

proof fn lemma_first_dash_after_digits(a: Seq<char>, b: Seq<char>)
    requires
        forall|k: int| 0 <= k < a.len() ==> is_digit(#[trigger] a[k]),
    ensures
        exists|i: int| is_first_dash(a + seq!['-'] + b, i),
        (choose|i: int| is_first_dash(a + seq!['-'] + b, i)) == a.len(),
{
    let r = a + seq!['-'] + b;
    assert(r[a.len() as int] == '-');
    assert forall|k: int| 0 <= k < a.len() implies #[trigger] r[k] != '-' by {
        assert(r[k] == a[k]);
        assert(is_digit(a[k]));
    }
    assert(is_first_dash(r, a.len() as int));
    let i = choose|i: int| is_first_dash(r, i);
    if i < a.len() {
        assert(r[i] != '-');
    } else if i > a.len() {
        assert(r[a.len() as int] != '-');
    }
}

/// The channel `nightly-Y-M-D` spelled with the given fields.
pub open spec fn nightly_channel_of(y: Seq<char>, m: Seq<char>, d: Seq<char>) -> Seq<char> {
    "nightly-"@ + y + "-"@ + m + "-"@ + d
}

/// A channel `nightly-Y-M-D` whose fields are digits (leading zeros allowed) that fit in a `u32`
/// has the date that its fields spell.
pub proof fn lemma_nightly_date_of_fields(y: Seq<char>, m: Seq<char>, d: Seq<char>)
    requires
        is_u32_digits(y),
        is_u32_digits(m),
        is_u32_digits(d),
    ensures
        nightly_date(nightly_channel_of(y, m, d)) == Some(
            (digits_value(y) as u32, digits_value(m) as u32, digits_value(d) as u32),
        ),
{
    reveal_strlit("nightly-");
    reveal_strlit("-");
    let c = nightly_channel_of(y, m, d);
    assert(c =~= "nightly-"@ + (y + seq!['-'] + (m + seq!['-'] + d)));
    assert(c.take(8) =~= "nightly-"@);
    let r = c.skip(8);
    assert(r =~= y + seq!['-'] + (m + seq!['-'] + d));
    lemma_first_dash_after_digits(y, m + seq!['-'] + d);
    let i = choose|i: int| is_first_dash(r, i);
    assert(i == y.len());
    let rest = r.skip(i + 1);
    assert(rest =~= m + seq!['-'] + d);
    lemma_first_dash_after_digits(m, d);
    let j = choose|j: int| is_first_dash(rest, j);
    assert(j == m.len());
    assert(r.take(i) =~= y);
    assert(rest.take(j) =~= m);
    assert(rest.skip(j + 1) =~= d);
}

/// The date of the nightly channel of a date is that date.
pub proof fn lemma_nightly_date_of_channel(y: u32, m: u32, d: u32)
    ensures
        nightly_date(nightly_channel(y, m, d)) == Some((y, m, d)),
{
    lemma_decimal_digits(y as nat);
    lemma_decimal_digits(m as nat);
    lemma_decimal_digits(d as nat);
    assert(nightly_channel(y, m, d) == nightly_channel_of(
        decimal(y as nat),
        decimal(m as nat),
        decimal(d as nat),
    ));
    lemma_nightly_date_of_fields(decimal(y as nat), decimal(m as nat), decimal(d as nat));
}

/// Upgrading between two nightly channels whose fields are digits (leading zeros allowed) is
/// refused exactly when `--allow-downgrade` was not given and the new channel's date comes first:
/// an earlier year; or the same year and an earlier month; or the same year and month and an
/// earlier day.
pub proof fn lemma_downgrade_refused_by_fields(
    allow_downgrade: bool,
    y1: Seq<char>,
    m1: Seq<char>,
    d1: Seq<char>,
    y2: Seq<char>,
    m2: Seq<char>,
    d2: Seq<char>,
)
    requires
        is_u32_digits(y1),
        is_u32_digits(m1),
        is_u32_digits(d1),
        is_u32_digits(y2),
        is_u32_digits(m2),
        is_u32_digits(d2),
    ensures
        downgrade_refused(
            allow_downgrade,
            nightly_channel_of(y1, m1, d1),
            nightly_channel_of(y2, m2, d2),
        ) == (!allow_downgrade && (digits_value(y1) < digits_value(y2) || (digits_value(y1)
            == digits_value(y2) && digits_value(m1) < digits_value(m2)) || (digits_value(y1)
            == digits_value(y2) && digits_value(m1) == digits_value(m2) && digits_value(d1)
            < digits_value(d2)))),
{
    lemma_nightly_date_of_fields(y1, m1, d1);
    lemma_nightly_date_of_fields(y2, m2, d2);
}

/// Upgrading from one nightly channel to another is refused exactly when `--allow-downgrade` was
/// not given and the new channel's date comes before the old one's: an earlier year; or the same
/// year and an earlier month; or the same year and month and an earlier day.
pub proof fn lemma_downgrade_refused_by_date(
    allow_downgrade: bool,
    y1: u32,
    m1: u32,
    d1: u32,
    y2: u32,
    m2: u32,
    d2: u32,
)
    ensures
        downgrade_refused(allow_downgrade, nightly_channel(y1, m1, d1), nightly_channel(y2, m2, d2))
            == (!allow_downgrade && (y1 < y2 || (y1 == y2 && m1 < m2) || (y1 == y2 && m1 == m2
            && d1 < d2))),
{
    lemma_nightly_date_of_channel(y1, m1, d1);
    lemma_nightly_date_of_channel(y2, m2, d2);
}

/// A channel that is not a nightly one never makes an upgrade a refused downgrade.
pub proof fn lemma_downgrade_needs_nightlies(allow_downgrade: bool, new_channel: Seq<char>, old_channel: Seq<char>)
    requires
        nightly_date(new_channel) is None || nightly_date(old_channel) is None,
    ensures
        !downgrade_refused(allow_downgrade, new_channel, old_channel),
{
}
} // verus!
