//! Tokenization of Rust fragments (code that may hold unbalanced delimiters) with `syntect`'s
//! Rust syntax.
//!
//! `syntect` reports where scopes change, as byte offsets into the line; the tokens are the
//! pieces between consecutive offsets (and the end of the line), leaving out the pieces that are
//! all white space and trimming leading white space from the others.

use vstd::prelude::*;
use crate::text::{
    all_white_space, all_whitespace, chars_of, string_from_chars, sub_chars, trim_chars,
    trim_spec, trim_start_chars, trim_start_spec,
};
use crate::dependency::strings_view;

verus! {

/// The byte offsets at which `syntect`'s Rust syntax, parsing a line on its own, changes scope
/// (in the order `ParseState::parse_line` reports them); `None` where it reports an error.
pub uninterp spec fn rust_scope_offsets(line: Seq<char>) -> Option<Seq<usize>>;

/// Why a fragment could not be tokenized.
#[derive(Debug)]
pub enum TokenizeError {
    /// `syntect` refused the line.
    Parse,
    /// `syntect` reported an offset that does not fall between two characters of the line, or
    /// offsets out of order.
    Offset,
}

/// `syntect`'s set of syntaxes.
#[verifier::external_type_specification]
#[verifier::external_body]
pub struct ExSyntaxSet(syntect::parsing::SyntaxSet);

/// `syntect`'s default syntaxes (without newlines), loaded once and used for every line. The
/// field is private and only [`RustSyntax::load`] fills it, so it always holds those syntaxes.
pub(crate) struct RustSyntax {
    set: syntect::parsing::SyntaxSet,
}

impl RustSyntax {
    /// `SyntaxSet::load_defaults_nonewlines`: loads `syntect`'s default syntaxes.
    #[verifier::external_body]
    pub(crate) fn load() -> RustSyntax {
        RustSyntax { set: syntect::parsing::SyntaxSet::load_defaults_nonewlines() }
    }
}

/// Parses a line with `syntect`'s default Rust syntax (a fresh `ParseState`, `parse_line`) and
/// returns the offsets of the scope changes it reports; `None` where `parse_line` returns an
/// error or the syntax is missing.
#[verifier::external_body]
fn scope_offsets(syntax: &RustSyntax, line: &str) -> (r: Option<Vec<usize>>)
    ensures
        match r {
            Some(v) => rust_scope_offsets(line@) == Some(v@),
            None => rust_scope_offsets(line@) is None,
        },
{
    let rust = syntax.set.find_syntax_by_extension("rs")?;
    let mut state = syntect::parsing::ParseState::new(rust);
    let ops = state.parse_line(line, &syntax.set).ok()?;
    Some(ops.into_iter().map(|(offset, _)| offset).collect())
}

/// The number of bytes of a character's UTF-8 encoding.
pub open spec fn utf8_width(c: char) -> nat {
    if (c as u32) < 0x80 {
        1
    } else if (c as u32) < 0x800 {
        2
    } else if (c as u32) < 0x10000 {
        3
    } else {
        4
    }
}

/// The number of bytes of the UTF-8 encoding of `s`.
pub open spec fn byte_len(s: Seq<char>) -> nat
    decreases s.len(),
{
    if s.len() == 0 {
        0
    } else {
        byte_len(s.drop_last()) + utf8_width(s.last())
    }
}

/// The character index at which byte offset `b` falls, if it falls between two characters.
pub open spec fn char_index(s: Seq<char>, b: int) -> Option<int> {
    if exists|i: int| 0 <= i <= s.len() && byte_len(s.take(i)) == b {
        Some(choose|i: int| 0 <= i <= s.len() && byte_len(s.take(i)) == b)
    } else {
        None
    }
}

/// The characters between byte offsets `a` and `b`, where both fall between characters and
/// `a <= b`.
pub open spec fn piece(s: Seq<char>, a: int, b: int) -> Option<Seq<char>> {
    match (char_index(s, a), char_index(s, b)) {
        (Some(i), Some(j)) => if i <= j {
            Some(s.subrange(i, j))
        } else {
            None
        },
        _ => None,
    }
}

/// The tokens between consecutive bounds.
pub open spec fn tokens_between(s: Seq<char>, bounds: Seq<usize>) -> Option<Seq<Seq<char>>>
    decreases bounds.len(),
{
    if bounds.len() < 2 {
        Some(Seq::empty())
    } else {
        match piece(s, bounds[0] as int, bounds[1] as int) {
            None => None,
            Some(p) => match tokens_between(s, bounds.drop_first()) {
                None => None,
                Some(rest) => Some(
                    if all_white_space(p) {
                        rest
                    } else {
                        seq![trim_start_spec(p)] + rest
                    },
                ),
            },
        }
    }
}

/// The tokens of a fragment.
pub open spec fn fragment_tokens(line: Seq<char>) -> Option<Seq<Seq<char>>> {
    match rust_scope_offsets(line) {
        None => None,
        Some(offsets) => if byte_len(line) <= usize::MAX {
            tokens_between(line, offsets.push(byte_len(line) as usize))
        } else {
            None
        },
    }
}

/// The tokens of several lines: each line is trimmed and tokenized, and the tokens are
/// concatenated in order.
pub open spec fn lines_tokens(lines: Seq<Seq<char>>) -> Option<Seq<Seq<char>>>
    decreases lines.len(),
{
    if lines.len() == 0 {
        Some(Seq::empty())
    } else {
        match (lines_tokens(lines.drop_last()), fragment_tokens(trim_spec(lines.last()))) {
            (Some(a), Some(b)) => Some(a + b),
            _ => None,
        }
    }
}

proof fn lemma_byte_len_take_step(s: Seq<char>, i: int)
    requires
        0 <= i < s.len(),
    ensures
        byte_len(s.take(i + 1)) == byte_len(s.take(i)) + utf8_width(s[i]),
{
    assert(s.take(i + 1).drop_last() =~= s.take(i));
}

proof fn lemma_byte_len_strictly_increasing(s: Seq<char>, i: int, j: int)
    requires
        0 <= i < j <= s.len(),
    ensures
        byte_len(s.take(i)) < byte_len(s.take(j)),
    decreases j - i,
{
    lemma_byte_len_take_step(s, j - 1);
    if i < j - 1 {
        lemma_byte_len_strictly_increasing(s, i, j - 1);
    }
}

proof fn lemma_suffix_none(s: Seq<char>, b: Seq<usize>, m: int)
    requires
        0 <= m <= b.len(),
        tokens_between(s, b.skip(m)) is None,
    ensures
        tokens_between(s, b) is None,
    decreases m,
{
    if m == 0 {
        assert(b.skip(0) =~= b);
    } else {
        assert(b.drop_first().skip(m - 1) =~= b.skip(m));
        lemma_suffix_none(s, b.drop_first(), m - 1);
    }
}

proof fn lemma_prefix_none(ls: Seq<Seq<char>>, k: int, n: int)
    requires
        0 <= k <= n <= ls.len(),
        lines_tokens(ls.take(k)) is None,
    ensures
        lines_tokens(ls.take(n)) is None,
    decreases n - k,
{
    if k < n {
        lemma_prefix_none(ls, k, n - 1);
        assert(ls.take(n).drop_last() =~= ls.take(n - 1));
    }
}

pub(crate) fn width(c: char) -> (w: usize)
    ensures
        w == utf8_width(c),
{
    if (c as u32) < 0x80 {
        1
    } else if (c as u32) < 0x800 {
        2
    } else if (c as u32) < 0x10000 {
        3
    } else {
        4
    }
}

/// The byte offset of each character boundary of `s` (`s.len() + 1` of them), or `None` when the
/// total does not fit in a `usize`.
fn boundaries(s: &Vec<char>) -> (r: Option<Vec<usize>>)
    ensures
        r matches Some(v) ==> v@.len() == s@.len() + 1 && forall|i: int|
            0 <= i <= s@.len() ==> #[trigger] v@[i] == byte_len(s@.take(i)),
        r is None ==> byte_len(s@) > usize::MAX,
{
    let mut v: Vec<usize> = Vec::new();
    v.push(0);
    assert(s@.take(0) =~= Seq::<char>::empty());
    let mut total: usize = 0;
    let mut i: usize = 0;
    while i < s.len()
        invariant
            i <= s@.len(),
            v@.len() == i + 1,
            total == byte_len(s@.take(i as int)),
            forall|k: int| 0 <= k <= i ==> #[trigger] v@[k] == byte_len(s@.take(k)),
        decreases s@.len() - i,
    {
        let w = width(s[i]);
        proof {
            lemma_byte_len_take_step(s@, i as int);
        }
        if total > usize::MAX - w {
            proof {
                if i + 1 < s@.len() {
                    lemma_byte_len_strictly_increasing(s@, i + 1, s@.len() as int);
                }
                assert(s@.take(s@.len() as int) =~= s@);
            }
            return None;
        }
        total = total + w;
        v.push(total);
        i = i + 1;
    }
    Some(v)
}

/// The character index of byte offset `b` among the boundaries.
fn index_of_offset(bounds: &Vec<usize>, b: usize, Ghost(s): Ghost<Seq<char>>) -> (r: Option<usize>)
    requires
        bounds@.len() == s.len() + 1,
        forall|i: int| 0 <= i <= s.len() ==> #[trigger] bounds@[i] == byte_len(s.take(i)),
    ensures
        match r {
            Some(i) => char_index(s, b as int) == Some(i as int),
            None => char_index(s, b as int) is None,
        },
{
    let mut i: usize = 0;
    while i < bounds.len()
        invariant
            i <= bounds@.len(),
            bounds@.len() == s.len() + 1,
            forall|k: int| 0 <= k <= s.len() ==> #[trigger] bounds@[k] == byte_len(s.take(k)),
            forall|k: int| 0 <= k < i ==> bounds@[k] != b,
        decreases bounds@.len() - i,
    {
        if bounds[i] == b {
            proof {
                let c = choose|k: int| 0 <= k <= s.len() && byte_len(s.take(k)) == b;
                assert(0 <= i <= s.len() && byte_len(s.take(i as int)) == b);
                if c < i {
                    lemma_byte_len_strictly_increasing(s, c, i as int);
                } else if c > i {
                    lemma_byte_len_strictly_increasing(s, i as int, c);
                }
            }
            return Some(i);
        }
        i = i + 1;
    }
    proof {
        if exists|k: int| 0 <= k <= s.len() && byte_len(s.take(k)) == b {
            let k = choose|k: int| 0 <= k <= s.len() && byte_len(s.take(k)) == b;
            assert(bounds@[k] == b);
        }
    }
    None
}

/// Tokenizes a Rust fragment, e.g. code holding unbalanced delimiters: `syntect`'s scope changes
/// cut the line into pieces; pieces that are all white space are left out and the others lose
/// their leading white space (see [`fragment_tokens`]).
pub fn tokenize_fragment(line: &str) -> (r: Result<Vec<String>, TokenizeError>)
    ensures
        match r {
            Ok(tokens) => fragment_tokens(line@) == Some(strings_view(tokens@)),
            Err(_) => fragment_tokens(line@) is None,
        },
{
    let syntax = RustSyntax::load();
    tokenize_fragment_with(&syntax, line)
}

/// [`tokenize_fragment`] with the syntaxes already loaded.
pub(crate) fn tokenize_fragment_with(syntax: &RustSyntax, line: &str) -> (r: Result<
    Vec<String>,
    TokenizeError,
>)
    ensures
        match r {
            Ok(tokens) => fragment_tokens(line@) == Some(strings_view(tokens@)),
            Err(_) => fragment_tokens(line@) is None,
        },
{
    let cs = chars_of(line);
    let offsets = match scope_offsets(syntax, line) {
        Some(o) => o,
        None => return Err(TokenizeError::Parse),
    };
    let bounds = match boundaries(&cs) {
        Some(b) => b,
        None => return Err(TokenizeError::Offset),
    };
    let total = bounds[cs.len()];
    assert(cs@.take(cs@.len() as int) =~= cs@);
    let mut all = offsets;
    all.push(total);
    let ghost bs = all@;
    let mut tokens: Vec<String> = Vec::new();
    assert(fragment_tokens(line@) == tokens_between(cs@, bs));
    if all.len() < 2 {
        assert(strings_view(tokens@) =~= Seq::<Seq<char>>::empty());
        return Ok(tokens);
    }
    // Walk the pieces from the last one back, so that each step prepends a token.
    let mut j: usize = all.len() - 1;
    assert(bs.skip(j as int).len() == 1);
    assert(strings_view(tokens@) =~= Seq::<Seq<char>>::empty());
    while j > 0
        invariant
            1 <= j + 1 <= bs.len(),
            bs == all@,
            bs.len() >= 2,
            cs@ == line@,
            bounds@.len() == cs@.len() + 1,
            forall|i: int| 0 <= i <= cs@.len() ==> #[trigger] bounds@[i] == byte_len(cs@.take(i)),
            tokens_between(cs@, bs.skip(j as int)) == Some(strings_view(tokens@)),
            fragment_tokens(line@) == tokens_between(cs@, bs),
        decreases j,
    {
        let a = all[j - 1];
        let b = all[j];
        let ia = index_of_offset(&bounds, a, Ghost(cs@));
        let ib = index_of_offset(&bounds, b, Ghost(cs@));
        let ghost sk = bs.skip(j - 1);
        assert(sk[0] == a && sk[1] == b);
        assert(sk.drop_first() =~= bs.skip(j as int));
        match (ia, ib) {
            (Some(i), Some(k)) => {
                if i > k {
                    proof {
                        lemma_suffix_none(cs@, bs, j - 1);
                    }
                    return Err(TokenizeError::Offset);
                }
                let p = sub_chars(&cs, i, k);
                if !all_whitespace(&p) {
                    let t = trim_start_chars(&p);
                    let ghost before = strings_view(tokens@);
                    tokens.insert(0, string_from_chars(t.as_slice()));
                    assert(strings_view(tokens@) =~= seq![trim_start_spec(p@)] + before);
                }
            },
            _ => {
                proof {
                    lemma_suffix_none(cs@, bs, j - 1);
                }
                return Err(TokenizeError::Offset);
            },
        }
        j = j - 1;
    }
    assert(bs.skip(0) =~= bs);
    Ok(tokens)
}

/// Tokenizes lines: each is trimmed and tokenized as a fragment, and the tokens are concatenated
/// in order (see [`lines_tokens`]).
pub fn tokenize_lines(lines: &[String]) -> (r: Result<Vec<String>, TokenizeError>)
    ensures
        match r {
            Ok(tokens) => lines_tokens(strings_view(lines@)) == Some(strings_view(tokens@)),
            Err(_) => lines_tokens(strings_view(lines@)) is None,
        },
{
    let syntax = RustSyntax::load();
    let mut out: Vec<String> = Vec::new();
    let mut i: usize = 0;
    assert(strings_view(lines@.take(0)) =~= Seq::<Seq<char>>::empty());
    assert(strings_view(out@) =~= Seq::<Seq<char>>::empty());
    while i < lines.len()
        invariant
            i <= lines@.len(),
            lines_tokens(strings_view(lines@.take(i as int))) == Some(strings_view(out@)),
        decreases lines@.len() - i,
    {
        let cs = chars_of(lines[i].as_str());
        let trimmed = trim_chars(&cs);
        let line = string_from_chars(trimmed.as_slice());
        assert(strings_view(lines@.take(i + 1)).drop_last() =~= strings_view(lines@.take(i as int)));
        assert(strings_view(lines@.take(i + 1)).last() == lines@[i as int]@);
        match tokenize_fragment_with(&syntax, line.as_str()) {
            Ok(mut ts) => {
                let ghost before = strings_view(out@);
                let ghost added = strings_view(ts@);
                out.append(&mut ts);
                assert(strings_view(out@) =~= before + added);
            },
            Err(e) => {
                proof {
                    lemma_prefix_none(strings_view(lines@), i + 1, lines@.len() as int);
                    assert(strings_view(lines@).take(i + 1) =~= strings_view(lines@.take(i + 1)));
                    assert(strings_view(lines@).take(lines@.len() as int) =~= strings_view(lines@));
                }
                return Err(e);
            },
        }
        i = i + 1;
    }
    assert(lines@.take(lines@.len() as int) =~= lines@);
    Ok(out)
}

} // verus!
