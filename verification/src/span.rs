//! Locating a range of tokens in source lines: where it starts and ends (line and byte column),
//! and its text.

use vstd::prelude::*;
use crate::dependency::strings_view;
use crate::text::{chars_of, push_char, string_from_chars, sub_chars};
use crate::tokenization::{byte_len, lines_tokens, tokenize_lines, utf8_width, TokenizeError};

verus! {

/// A position in a file: 1-based line, 0-based byte column.
#[derive(Clone, Copy, Debug, PartialEq, Eq, Structural)]
pub struct LineColumn {
    pub line: usize,
    pub column: usize,
}

/// A range of a file, from `start` to `end`.
#[derive(Clone, Copy, Debug, PartialEq, Eq, Structural)]
pub struct Span {
    pub start: LineColumn,
    pub end: LineColumn,
}

/// Why a range of tokens could not be located.
#[derive(Debug)]
pub enum SpanError {
    /// The lines could not be tokenized.
    Tokenize(TokenizeError),
    /// The tokens could not be found in the lines in order (the lines ran out, a token is
    /// missing from its line, something other than white space precedes it, or a position
    /// does not fit in a `usize`).
    NotFound,
}

/// An ASCII white-space character (`u8::is_ascii_whitespace` on its byte).
pub open spec fn is_ascii_ws(c: char) -> bool {
    c == ' ' || c == '\t' || c == '\n' || c == '\x0C' || c == '\r'
}

/// Every character is ASCII white space.
pub open spec fn all_ascii_ws(s: Seq<char>) -> bool {
    forall|i: int| 0 <= i < s.len() ==> is_ascii_ws(#[trigger] s[i])
}

/// `needle` occurs in `hay` at `i`.
pub open spec fn chars_at(hay: Seq<char>, needle: Seq<char>, i: int) -> bool {
    0 <= i && i + needle.len() <= hay.len() && hay.subrange(i, i + needle.len()) == needle
}

/// `needle` occurs in `hay` at `i` and nowhere before.
pub open spec fn is_first_at(hay: Seq<char>, needle: Seq<char>, i: int) -> bool {
    chars_at(hay, needle, i) && forall|j: int| 0 <= j < i ==> !chars_at(hay, needle, j)
}

/// The first position of `needle` in `hay`.
pub open spec fn first_occurrence(hay: Seq<char>, needle: Seq<char>) -> Option<int> {
    if exists|i: int| is_first_at(hay, needle, i) {
        Some(choose|i: int| is_first_at(hay, needle, i))
    } else {
        None
    }
}

/// The state of the scan: which line, what is left of it, the current position, the next
/// token, where the range started, and the text collected.
pub struct Scan {
    pub li: int,
    pub line: Seq<char>,
    pub row: int,
    pub col: int,
    pub i: int,
    pub start: Option<(int, int)>,
    pub text: Seq<char>,
}

/// Scans the lines token by token until the end of the range: lines (or what is left of them)
/// that are all white space are passed over, contributing themselves and a newline to the text
/// once inside the range; each token must be the first occurrence of itself in what is left of
/// its line, preceded only by white space, which joins the text inside the range; the range's
/// start is where its first token starts and its end where its last token ends.
pub open spec fn scan(
    lines: Seq<Seq<char>>,
    tokens: Seq<Seq<char>>,
    rs: int,
    re: int,
    st: Scan,
) -> Option<((int, int), (int, int), Seq<char>)>
    decreases re - st.i, lines.len() - st.li,
{
    if st.i >= re {
        match st.start {
            Some(s) => Some((s, (st.row, st.col), st.text)),
            None => None,
        }
    } else if all_ascii_ws(st.line) {
        if st.li + 1 >= lines.len() || st.li + 1 < 0 || st.row + 1 > usize::MAX {
            None
        } else {
            scan(
                lines,
                tokens,
                rs,
                re,
                Scan {
                    li: st.li + 1,
                    line: lines[st.li + 1],
                    row: st.row + 1,
                    col: 0,
                    text: if rs < st.i {
                        st.text + st.line + seq!['\n']
                    } else {
                        st.text
                    },
                    ..st
                },
            )
        }
    } else if st.i < 0 || st.i >= tokens.len() {
        None
    } else {
        let tok = tokens[st.i];
        match first_occurrence(st.line, tok) {
            None => None,
            Some(off) => {
                let col1 = st.col + byte_len(st.line.take(off));
                let col2 = col1 + byte_len(tok);
                if !all_ascii_ws(st.line.take(off)) || col2 > usize::MAX {
                    None
                } else {
                    scan(
                        lines,
                        tokens,
                        rs,
                        re,
                        Scan {
                            line: st.line.skip(off + tok.len()),
                            col: col2,
                            i: st.i + 1,
                            start: if rs == st.i {
                                Some((st.row, col1))
                            } else {
                                st.start
                            },
                            text: if rs < st.i {
                                st.text + st.line.take(off) + tok
                            } else if rs == st.i {
                                st.text + tok
                            } else {
                                st.text
                            },
                            ..st
                        },
                    )
                }
            },
        }
    }
}

/// The span and text of tokens `rs..re` of the lines, which start at line `line_start`.
pub open spec fn span_of_tokens(
    line_start: int,
    lines: Seq<Seq<char>>,
    tokens: Seq<Seq<char>>,
    rs: int,
    re: int,
) -> Option<((int, int), (int, int), Seq<char>)> {
    if lines.len() == 0 {
        None
    } else {
        scan(
            lines,
            tokens,
            rs,
            re,
            Scan {
                li: 0,
                line: lines[0],
                row: line_start,
                col: 0,
                i: 0,
                start: None,
                text: Seq::empty(),
            },
        )
    }
}

/// The start and end of a span as pairs of line and column.
pub open spec fn span_view(sp: Span) -> ((int, int), (int, int)) {
    ((sp.start.line as int, sp.start.column as int), (sp.end.line as int, sp.end.column as int))
}

/// What locating tokens `rs..re` of the lines gives: for an empty range, the empty span at line
/// 0, column 0, and no text; else, where the lines can be tokenized, the span and text of
/// [`span_of_tokens`].
pub open spec fn located(line_start: int, lines: Seq<Seq<char>>, rs: int, re: int) -> Option<
    (((int, int), (int, int)), Seq<char>),
> {
    if rs >= re {
        Some((((0, 0), (0, 0)), Seq::empty()))
    } else {
        match lines_tokens(lines) {
            None => None,
            Some(toks) => match span_of_tokens(line_start, lines, toks, rs, re) {
                None => None,
                Some((s, e, t)) => Some(((s, e), t)),
            },
        }
    }
}

fn all_ascii_whitespace(s: &Vec<char>) -> (r: bool)
    ensures
        r == all_ascii_ws(s@),
{
    let mut i: usize = 0;
    while i < s.len()
        invariant
            i <= s@.len(),
            forall|j: int| 0 <= j < i ==> is_ascii_ws(#[trigger] s@[j]),
        decreases s@.len() - i,
    {
        let c = s[i];
        if !(c == ' ' || c == '\t' || c == '\n' || c == '\x0C' || c == '\r') {
            return false;
        }
        i = i + 1;
    }
    true
}

pub(crate) fn find_chars(hay: &Vec<char>, needle: &Vec<char>) -> (r: Option<usize>)
    ensures
        r matches Some(i) ==> first_occurrence(hay@, needle@) == Some(i as int),
        r is None ==> first_occurrence(hay@, needle@) is None,
{
    if needle.len() > hay.len() {
        return None;
    }
    let last: usize = hay.len() - needle.len();
    let mut i: usize = 0;
    while i <= last
        invariant
            last == hay@.len() - needle@.len(),
            hay@.len() <= usize::MAX,
            forall|j: int| 0 <= j < i ==> !chars_at(hay@, needle@, j),
        decreases last + 1 - i,
    {
        let mut k: usize = 0;
        let mut same = true;
        while k < needle.len() && same
            invariant
                k <= needle@.len(),
                i + needle@.len() <= hay@.len(),
                hay@.len() <= usize::MAX,
                forall|m: int| 0 <= m < k ==> hay@[i + m] == #[trigger] needle@[m],
                !same ==> k < needle@.len() && hay@[i + k] != needle@[k as int],
            decreases needle@.len() - k + (if same { 1int } else { 0 }),
        {
            if hay[i + k] == needle[k] {
                k = k + 1;
            } else {
                same = false;
            }
        }
        if same {
            assert(hay@.subrange(i as int, i + needle@.len()) =~= needle@);
            assert(is_first_at(hay@, needle@, i as int));
            proof {
                let c = choose|x: int| is_first_at(hay@, needle@, x);
                if c < i {
                    assert(!chars_at(hay@, needle@, c));
                } else if c > i {
                    assert(!chars_at(hay@, needle@, i as int));
                }
            }
            return Some(i);
        }
        assert(hay@.subrange(i as int, i + needle@.len())[k as int] != needle@[k as int]);
        i = i + 1;
    }
    assert forall|j: int| !chars_at(hay@, needle@, j) by {
        if 0 <= j && j + needle@.len() <= hay@.len() {
            assert(j < i);
        }
    }
    None
}

/// The number of bytes of the UTF-8 encoding of `s`, or `None` where it exceeds `limit`.
pub(crate) fn byte_count(s: &Vec<char>, limit: usize) -> (r: Option<usize>)
    ensures
        r matches Some(n) ==> n == byte_len(s@) && n <= limit,
        r is None ==> byte_len(s@) > limit,
{
    let mut n: usize = 0;
    let mut i: usize = 0;
    assert(s@.take(0) =~= Seq::<char>::empty());
    while i < s.len()
        invariant
            i <= s@.len(),
            n == byte_len(s@.take(i as int)),
            n <= limit,
        decreases s@.len() - i,
    {
        let w = crate::tokenization::width(s[i]);
        assert(s@.take(i + 1).drop_last() =~= s@.take(i as int));
        if w > limit - n {
            proof {
                lemma_byte_len_prefix_le(s@, i + 1);
            }
            return None;
        }
        n = n + w;
        i = i + 1;
    }
    assert(s@.take(s@.len() as int) =~= s@);
    Some(n)
}

proof fn lemma_byte_len_prefix_le(s: Seq<char>, k: int)
    requires
        0 <= k <= s.len(),
    ensures
        byte_len(s.take(k)) <= byte_len(s),
    decreases s.len() - k,
{
    if k < s.len() {
        lemma_byte_len_prefix_le(s, k + 1);
        assert(s.take(k + 1).drop_last() =~= s.take(k));
    } else {
        assert(s.take(k) =~= s);
    }
}

fn append_chars(text: &mut Vec<char>, more: &Vec<char>)
    ensures
        final(text)@ == old(text)@ + more@,
{
    let mut i: usize = 0;
    while i < more.len()
        invariant
            i <= more@.len(),
            text@ == old(text)@ + more@.take(i as int),
        decreases more@.len() - i,
    {
        text.push(more[i]);
        i = i + 1;
        assert(text@ =~= old(text)@ + more@.take(i as int));
    }
    assert(more@.take(more@.len() as int) =~= more@);
}

/// Where the next token lies in what is left of the line: its offset (in characters) and the
/// byte columns where it starts and ends; `None` where it is missing, preceded by something other
/// than white space, or ends past `usize::MAX`.
fn token_step(line: &Vec<char>, tok: &Vec<char>, col: usize) -> (r: Option<(usize, usize, usize)>)
    ensures
        match r {
            Some((off, col1, col2)) => first_occurrence(line@, tok@) == Some(off as int)
                && all_ascii_ws(line@.take(off as int))
                && col1 == col + byte_len(line@.take(off as int))
                && col2 == col1 + byte_len(tok@),
            None => match first_occurrence(line@, tok@) {
                None => true,
                Some(off) => !all_ascii_ws(line@.take(off)) || col + byte_len(line@.take(off))
                    + byte_len(tok@) > usize::MAX,
            },
        },
{
    let off = match find_chars(line, tok) {
        Some(o) => o,
        None => return None,
    };
    let before = sub_chars(line, 0, off);
    assert(before@ =~= line@.take(off as int));
    if !all_ascii_whitespace(&before) {
        return None;
    }
    let b1 = match byte_count(&before, usize::MAX - col) {
        Some(n) => n,
        None => return None,
    };
    let col1 = col + b1;
    let b2 = match byte_count(tok, usize::MAX - col1) {
        Some(n) => n,
        None => return None,
    };
    Some((off, col1, col1 + b2))
}

/// The scan state of the executable variables.
pub open spec fn scan_state(
    li: usize,
    line: Seq<char>,
    row: usize,
    col: usize,
    i: usize,
    start: Option<LineColumn>,
    text: Seq<char>,
) -> Scan {
    Scan {
        li: li as int,
        line,
        row: row as int,
        col: col as int,
        i: i as int,
        start: match start {
            Some(s) => Some((s.line as int, s.column as int)),
            None => None,
        },
        text,
    }
}

/// One step of the scan: passes over a line of white space, or takes the next token. Returns
/// `false` where the scan fails.
#[verifier::rlimit(40)]
fn scan_step(
    lines: &[String],
    tokens: &Vec<String>,
    range_start: usize,
    range_end: usize,
    li: &mut usize,
    line: &mut Vec<char>,
    row: &mut usize,
    col: &mut usize,
    i: &mut usize,
    start: &mut Option<LineColumn>,
    text: &mut Vec<char>,
) -> (ok: bool)
    requires
        *old(i) < range_end,
        *old(li) < lines@.len(),
    ensures
        ({
            let lv = strings_view(lines@);
            let tv = strings_view(tokens@);
            let before = scan_state(*old(li), old(line)@, *old(row), *old(col), *old(i), *old(start), old(text)@);
            let after = scan_state(*final(li), final(line)@, *final(row), *final(col), *final(i), *final(start), final(text)@);
            if ok {
                &&& scan(lv, tv, range_start as int, range_end as int, before) == scan(lv, tv, range_start as int, range_end as int, after)
                &&& *final(li) < lines@.len()
                &&& (*final(i) > *old(i) || (*final(i) == *old(i) && *final(li) > *old(li)))
                &&& *final(i) <= range_end
            } else {
                scan(lv, tv, range_start as int, range_end as int, before) is None
            }
        }),
{
    let ghost lv = strings_view(lines@);
    let ghost tv = strings_view(tokens@);
    let n_lines = lines.len();
    if all_ascii_whitespace(line) {
        if *li + 1 >= n_lines || *row == usize::MAX {
            return false;
        }
        let ghost old_text = text@;
        let ghost old_line = line@;
        if range_start < *i {
            append_chars(text, line);
            text.push('\n');
            assert(text@ =~= old_text + old_line + seq!['\n']);
        }
        *li = *li + 1;
        *line = chars_of(lines[*li].as_str());
        *row = *row + 1;
        *col = 0;
        assert(lv[*li as int] == line@);
        assert(all_ascii_ws(old_line));
        return true;
    }
    if *i >= tokens.len() {
        return false;
    }
    let tok = chars_of(tokens[*i].as_str());
    assert(tv[*i as int] == tok@);
    let (off, col1, col2) = match token_step(line, &tok, *col) {
        Some(x) => x,
        None => return false,
    };
    let ghost old_line = line@;
    assert(is_first_at(old_line, tok@, off as int));
    let n_line = line.len();
    let n_tok = tok.len();
    if range_start < *i {
        let before = sub_chars(line, 0, off);
        append_chars(text, &before);
        append_chars(text, &tok);
    } else if range_start == *i {
        append_chars(text, &tok);
    }
    if range_start == *i {
        *start = Some(LineColumn { line: *row, column: col1 });
    }
    assert(chars_at(old_line, tok@, off as int));
    *line = sub_chars(line, off + n_tok, n_line);
    assert(line@ =~= old_line.skip(off + tok@.len()));
    *col = col2;
    *i = *i + 1;
    true
}

/// Returns the span and text of tokens `range_start..range_end` of `lines`, which start at
/// 1-based line `line_start` (see [`span_of_tokens`]). An empty range gives the empty span at
/// line 0, column 0, and no text.
#[verifier::rlimit(60)]
pub fn span_and_text_of_tokens(
    line_start: usize,
    lines: &[String],
    range_start: usize,
    range_end: usize,
) -> (r: Result<(Span, String), SpanError>)
    ensures
        range_start >= range_end ==> (r matches Ok((sp, t)) && sp == (Span {
            start: LineColumn { line: 0, column: 0 },
            end: LineColumn { line: 0, column: 0 },
        }) && t@.len() == 0),
        range_start < range_end ==> match r {
            Err(SpanError::Tokenize(_)) => lines_tokens(strings_view(lines@)) is None,
            Err(SpanError::NotFound) => (lines_tokens(strings_view(lines@)) matches Some(toks)
                && span_of_tokens(
                line_start as int,
                strings_view(lines@),
                toks,
                range_start as int,
                range_end as int,
            ) is None),
            Ok((sp, t)) => (lines_tokens(strings_view(lines@)) matches Some(toks)
                && span_of_tokens(
                line_start as int,
                strings_view(lines@),
                toks,
                range_start as int,
                range_end as int,
            ) == Some(
                (
                    (sp.start.line as int, sp.start.column as int),
                    (sp.end.line as int, sp.end.column as int),
                    t@,
                ),
            )),
        },
        r is Ok <==> located(line_start as int, strings_view(lines@), range_start as int, range_end as int) is Some,
        r matches Ok((sp, t)) ==> located(line_start as int, strings_view(lines@), range_start as int, range_end as int)
            == Some((span_view(sp), t@)),
{
    if range_start >= range_end {
        return Ok(
            (
                Span {
                    start: LineColumn { line: 0, column: 0 },
                    end: LineColumn { line: 0, column: 0 },
                },
                String::new(),
            ),
        );
    }
    let tokens = match tokenize_lines(lines) {
        Ok(t) => t,
        Err(e) => return Err(SpanError::Tokenize(e)),
    };
    let ghost lv = strings_view(lines@);
    let ghost tv = strings_view(tokens@);
    if lines.len() == 0 {
        return Err(SpanError::NotFound);
    }
    let mut li: usize = 0;
    let mut line = chars_of(lines[0].as_str());
    let mut row: usize = line_start;
    let mut col: usize = 0;
    let mut i: usize = 0;
    let mut start: Option<LineColumn> = None;
    let mut text: Vec<char> = Vec::new();
    assert(text@ =~= Seq::<char>::empty());
    while i < range_end
        invariant
            lv == strings_view(lines@),
            tv == strings_view(tokens@),
            li < lines@.len(),
            range_start < range_end,
            lines_tokens(lv) == Some(tv),
            span_of_tokens(line_start as int, lv, tv, range_start as int, range_end as int)
                == scan(
                lv,
                tv,
                range_start as int,
                range_end as int,
                scan_state(li, line@, row, col, i, start, text@),
            ),
        decreases range_end - i, lines@.len() - li,
    {
        if !scan_step(
            lines,
            &tokens,
            range_start,
            range_end,
            &mut li,
            &mut line,
            &mut row,
            &mut col,
            &mut i,
            &mut start,
            &mut text,
        ) {
            return Err(SpanError::NotFound);
        }
    }
    match start {
        Some(s) => Ok(
            (
                Span { start: s, end: LineColumn { line: row, column: col } },
                string_from_chars(text.as_slice()),
            ),
        ),
        None => Err(SpanError::NotFound),
    }
}

} // verus!
