//! Filling in the template of a new lint library: the names that replace the template's
//! placeholders, in the cases that `heck` writes.

use vstd::prelude::*;

verus! {

/// `heck`'s `snake_case` of a string.
pub uninterp spec fn snake_case(s: Seq<char>) -> Seq<char>;

/// `heck`'s `SHOUTY_SNAKE_CASE` of a string.
pub uninterp spec fn shouty_snake_case(s: Seq<char>) -> Seq<char>;

/// `heck`'s `kebab-case` of a string.
pub uninterp spec fn kebab_case(s: Seq<char>) -> Seq<char>;

/// `heck`'s `UpperCamelCase` of a string.
pub uninterp spec fn upper_camel_case(s: Seq<char>) -> Seq<char>;

/// `heck::ToSnakeCase::to_snake_case`; claims only that the result is determined by `s`.
#[verifier::external_body]
fn to_snake_case(s: &str) -> (r: String)
    ensures
        r@ == snake_case(s@),
{
    heck::ToSnakeCase::to_snake_case(s)
}

/// `heck::ToShoutySnakeCase::to_shouty_snake_case`; claims only that the result is determined
/// by `s`.
#[verifier::external_body]
fn to_shouty_snake_case(s: &str) -> (r: String)
    ensures
        r@ == shouty_snake_case(s@),
{
    heck::ToShoutySnakeCase::to_shouty_snake_case(s)
}

/// `heck::ToKebabCase::to_kebab_case`; claims only that the result is determined by `s`.
#[verifier::external_body]
fn to_kebab_case(s: &str) -> (r: String)
    ensures
        r@ == kebab_case(s@),
{
    heck::ToKebabCase::to_kebab_case(s)
}

/// `heck::ToUpperCamelCase::to_upper_camel_case`; claims only that the result is determined by
/// `s`.
#[verifier::external_body]
fn to_upper_camel_case(s: &str) -> (r: String)
    ensures
        r@ == upper_camel_case(s@),
{
    heck::ToUpperCamelCase::to_upper_camel_case(s)
}

/// The replacements that fill in the template for library `name`, in the order they are made in
/// each file: each placeholder (a regular expression matching it as a whole word) with `name` in
/// the placeholder's case.
pub open spec fn fill_in_text(name: Seq<char>) -> Seq<(Seq<char>, Seq<char>)> {
    seq![
        ("\\bfill_me_in\\b"@, snake_case(name)),
        ("\\bFILL_ME_IN\\b"@, shouty_snake_case(name)),
        ("\\bfill-me-in\\b"@, kebab_case(name)),
        ("\\bFillMeIn\\b"@, upper_camel_case(name)),
    ]
}

/// The replacements that fill in the template for library `name` (see [`fill_in_text`]).
pub fn fill_in_replacements(name: &str) -> (r: Vec<(String, String)>)
    ensures
        r@.len() == 4,
        forall|i: int|
            0 <= i < 4 ==> (#[trigger] r@[i]).0@ == fill_in_text(name@)[i].0 && r@[i].1@
                == fill_in_text(name@)[i].1,
{
    let mut r: Vec<(String, String)> = Vec::new();
    r.push(("\\bfill_me_in\\b".to_owned(), to_snake_case(name)));
    r.push(("\\bFILL_ME_IN\\b".to_owned(), to_shouty_snake_case(name)));
    r.push(("\\bfill-me-in\\b".to_owned(), to_kebab_case(name)));
    r.push(("\\bFillMeIn\\b".to_owned(), to_upper_camel_case(name)));
    r
}

} // verus!
