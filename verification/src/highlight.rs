//! Highlighted text of the compiler's diagnostics.

use vstd::prelude::*;
use crate::dependency::strings_view;
use crate::text::{at_char_boundary, byte_prefix, byte_suffix, split_at_byte};
use crate::tokenization::{fragment_tokens, lines_tokens, tokenize_fragment, tokenize_lines, TokenizeError};

verus! {

/// A span of a compiler diagnostic: the file, the 1-based lines and columns where it starts and
/// ends, whether it is the primary span, and the text of its lines.
#[derive(Debug)]
pub struct DiagnosticSpan {
    pub file_name: String,
    pub line_start: usize,
    pub line_end: usize,
    pub column_start: usize,
    pub column_end: usize,
    pub is_primary: bool,
    pub text: Vec<String>,
}

/// Highlighted text from a diagnostic's span.
#[derive(Debug, PartialEq, Eq, PartialOrd, Ord)]
pub struct Highlight {
    /// The diagnostic's message.
    pub message: String,
    /// The file that the diagnostic comes from.
    pub file_name: String,
    /// 1-based line in the file.
    pub line_start: usize,
    /// 1-based line in the file.
    pub line_end: usize,
    /// The text of the span's lines.
    pub lines: Vec<String>,
    /// The tokens of those lines.
    pub tokens: Vec<String>,
    /// Token index where the highlight starts.
    pub highlight_start: usize,
    /// Token index where the highlight ends.
    pub highlight_end: usize,
    /// Whether the span was the primary one.
    pub is_primary: bool,
}

/// Why a highlight could not be built.
#[derive(Debug)]
pub enum HighlightError {
    /// Some text could not be tokenized.
    Tokenize(TokenizeError),
    /// The last line's highlighted remainder has more tokens than all the lines together.
    TokenCount,
}

/// The span can be cut at its columns: it has lines, and the columns (1-based byte positions)
/// fall between characters of the first and the last line.
pub open spec fn span_cuttable(span: DiagnosticSpan) -> bool {
    &&& span.text@.len() > 0
    &&& span.column_start >= 1
    &&& span.column_end >= 1
    &&& at_char_boundary(span.text@[0]@, span.column_start - 1)
    &&& at_char_boundary(span.text@.last()@, span.column_end - 1)
}

/// The tokens before the highlight on the first line.
pub open spec fn tokens_before(span: DiagnosticSpan) -> Option<Seq<Seq<char>>> {
    fragment_tokens(byte_prefix(span.text@[0]@, span.column_start - 1))
}

/// The tokens after the highlight on the last line.
pub open spec fn tokens_after(span: DiagnosticSpan) -> Option<Seq<Seq<char>>> {
    fragment_tokens(byte_suffix(span.text@.last()@, span.column_end - 1))
}

/// `h` is the highlight of `span`, with the diagnostic's message: the span's lines and their
/// tokens, and the token indices where the highlighted text starts and ends.
pub open spec fn highlight_ok(message: Seq<char>, span: DiagnosticSpan, h: Highlight) -> bool {
    &&& lines_tokens(strings_view(span.text@)) == Some(strings_view(h.tokens@))
    &&& tokens_before(span) matches Some(b) && h.highlight_start == b.len()
    &&& tokens_after(span) matches Some(a) && h.highlight_end == h.tokens@.len() - a.len()
    &&& h.message@ == message
    &&& h.file_name == span.file_name
    &&& h.line_start == span.line_start
    &&& h.line_end == span.line_end
    &&& h.lines@ == span.text@
    &&& h.is_primary == span.is_primary
}

/// No highlight can be built from `span`: some text cannot be tokenized, or the last line's
/// remainder has more tokens than all the lines.
pub open spec fn highlight_fails(span: DiagnosticSpan) -> bool {
    ||| lines_tokens(strings_view(span.text@)) is None
    ||| tokens_before(span) is None
    ||| tokens_after(span) is None
    ||| (lines_tokens(strings_view(span.text@)) matches Some(t) && tokens_after(span) matches Some(a)
        && a.len() > t.len())
}

impl Highlight {
    /// Builds the highlight of a span: its lines and their tokens, and the token indices where
    /// the highlighted text starts (the number of tokens before the start column on the first
    /// line) and ends (the number of tokens less those after the end column on the last line).
    /// Fails where some text cannot be tokenized.
    pub fn try_new(message: &str, span: DiagnosticSpan) -> (r: Result<Highlight, HighlightError>)
        requires
            span_cuttable(span),
        ensures
            match r {
                Ok(h) => highlight_ok(message@, span, h),
                Err(HighlightError::Tokenize(_)) => lines_tokens(strings_view(span.text@)) is None
                    || tokens_before(span) is None || tokens_after(span) is None,
                Err(HighlightError::TokenCount) => lines_tokens(strings_view(span.text@)) matches Some(t)
                    && tokens_after(span) matches Some(a) && a.len() > t.len(),
            },
    {
        let DiagnosticSpan { file_name, line_start, line_end, column_start, column_end, is_primary, text } = span;
        let tokens = match tokenize_lines(text.as_slice()) {
            Ok(t) => t,
            Err(e) => return Err(HighlightError::Tokenize(e)),
        };
        let (first_part, _) = split_at_byte(text[0].as_str(), column_start - 1);
        let highlight_start = match tokenize_fragment(first_part) {
            Ok(t) => t.len(),
            Err(e) => return Err(HighlightError::Tokenize(e)),
        };
        let last = text.len() - 1;
        let (_, last_part) = split_at_byte(text[last].as_str(), column_end - 1);
        let n_after = match tokenize_fragment(last_part) {
            Ok(t) => t.len(),
            Err(e) => return Err(HighlightError::Tokenize(e)),
        };
        if n_after > tokens.len() {
            return Err(HighlightError::TokenCount);
        }
        let highlight_end = tokens.len() - n_after;
        Ok(
            Highlight {
                message: message.to_owned(),
                file_name,
                line_start,
                line_end,
                lines: text,
                tokens,
                highlight_start,
                highlight_end,
                is_primary,
            },
        )
    }
}

/// The level of a compiler diagnostic.
#[derive(Debug)]
pub enum DiagnosticLevel {
    Ice,
    Error,
    Warning,
    FailureNote,
    Note,
    Help,
}

/// A compiler diagnostic: its message, level and spans.
#[derive(Debug)]
pub struct Diagnostic {
    pub message: String,
    pub level: DiagnosticLevel,
    pub spans: Vec<DiagnosticSpan>,
}

/// A message of `cargo check --message-format=json`: why it was sent, and the diagnostic it
/// carries, if any.
#[derive(Debug)]
pub struct Message {
    pub reason: String,
    pub diagnostic: Option<Diagnostic>,
}

/// The message carries a compiler diagnostic.
pub open spec fn compiler_diagnostic(m: Message) -> bool {
    m.reason@ == "compiler-message"@ && m.diagnostic is Some
}

/// The message carries a compiler error that has no span.
pub open spec fn spanless_error(m: Message) -> bool {
    compiler_diagnostic(m) && m.diagnostic->0.level is Error && m.diagnostic->0.spans@.len() == 0
}

/// The warning for a compiler error without spans.
pub open spec fn spanless_warning(message: Seq<char>) -> Seq<char> {
    "Found diagnostic error with no spans: "@ + message
}

/// The spans that have text, each with the diagnostic's message.
pub open spec fn spans_with_text(message: Seq<char>, spans: Seq<DiagnosticSpan>) -> Seq<
    (Seq<char>, DiagnosticSpan),
>
    decreases spans.len(),
{
    if spans.len() == 0 {
        Seq::empty()
    } else {
        spans_with_text(message, spans.drop_last()) + if spans.last().text@.len() > 0 {
            seq![(message, spans.last())]
        } else {
            Seq::empty()
        }
    }
}

/// The spans of a message that give highlights: those with text, of a compiler diagnostic that
/// is not a spanless error.
pub open spec fn message_spans(m: Message) -> Seq<(Seq<char>, DiagnosticSpan)> {
    if compiler_diagnostic(m) && !spanless_error(m) {
        spans_with_text(m.diagnostic->0.message@, m.diagnostic->0.spans@)
    } else {
        Seq::empty()
    }
}

/// The spans of the messages that give highlights, in order.
pub open spec fn highlight_spans(ms: Seq<Message>) -> Seq<(Seq<char>, DiagnosticSpan)>
    decreases ms.len(),
{
    if ms.len() == 0 {
        Seq::empty()
    } else {
        highlight_spans(ms.drop_last()) + message_spans(ms.last())
    }
}

/// The warnings for the messages' spanless errors, in order.
pub open spec fn spanless_warnings(ms: Seq<Message>) -> Seq<Seq<char>>
    decreases ms.len(),
{
    if ms.len() == 0 {
        Seq::empty()
    } else {
        spanless_warnings(ms.drop_last()) + if spanless_error(ms.last()) {
            seq![spanless_warning(ms.last().diagnostic->0.message@)]
        } else {
            Seq::empty()
        }
    }
}

/// The span gives a highlight with at least one token.
pub open spec fn span_fine(span: DiagnosticSpan) -> bool {
    !highlight_fails(span) && lines_tokens(strings_view(span.text@)) != Some(Seq::<Seq<char>>::empty())
}

/// The spans before `k` give highlights with tokens.
pub open spec fn spans_fine_before(sp: Seq<(Seq<char>, DiagnosticSpan)>, k: int) -> bool {
    forall|k2: int| 0 <= k2 < k ==> span_fine(#[trigger] sp[k2].1)
}

/// `e` is why the span gives no highlight with tokens.
pub open spec fn span_error(span: DiagnosticSpan, e: CollectError) -> bool {
    match e {
        CollectError::Highlight(_) => highlight_fails(span),
        CollectError::NoTokens => !highlight_fails(span) && lines_tokens(strings_view(span.text@))
            == Some(Seq::<Seq<char>>::empty()),
    }
}

proof fn lemma_ok_is_fine(message: Seq<char>, span: DiagnosticSpan, h: Highlight)
    requires
        highlight_ok(message, span, h),
    ensures
        !highlight_fails(span),
        h.tokens@.len() > 0 ==> span_fine(span),
{
    if h.tokens@.len() > 0 {
        assert(strings_view(h.tokens@).len() > 0);
    }
}

/// Why the highlights of a build could not be collected.
#[derive(Debug)]
pub enum CollectError {
    /// A span's highlight could not be built.
    Highlight(HighlightError),
    /// A span's lines hold no token.
    NoTokens,
}

proof fn lemma_highlight_spans_push(ms: Seq<Message>, i: int)
    requires
        0 <= i < ms.len(),
    ensures
        highlight_spans(ms.take(i + 1)) == highlight_spans(ms.take(i)) + message_spans(ms[i]),
        spanless_warnings(ms.take(i + 1)) == spanless_warnings(ms.take(i)) + if spanless_error(ms[i]) {
            seq![spanless_warning(ms[i].diagnostic->0.message@)]
        } else {
            Seq::empty()
        },
{
    assert(ms.take(i + 1).drop_last() =~= ms.take(i));
}

/// The spans of a build's messages that give highlights must be cut at their columns.
pub open spec fn spans_cuttable(ms: Seq<Message>) -> bool {
    forall|k: int| 0 <= k < highlight_spans(ms).len() ==> span_cuttable(#[trigger] highlight_spans(ms)[k].1)
}

/// The highlights of a failed build's messages (before sorting), and the warnings due: for each
/// compiler diagnostic, a warning where it is an error without spans, else a highlight for each
/// span that has text. Fails where a highlight cannot be built or holds no token.
#[verifier::rlimit(60)]
pub fn highlights_from_messages(messages: Vec<Message>) -> (r: Result<(Vec<Highlight>, Vec<String>), CollectError>)
    requires
        spans_cuttable(messages@),
    ensures
        ({
            let sp = highlight_spans(messages@);
            match r {
                Ok((hs, ws)) => {
                    &&& strings_view(ws@) == spanless_warnings(messages@)
                    &&& hs@.len() == sp.len()
                    &&& forall|k: int| 0 <= k < sp.len() ==> highlight_ok(sp[k].0, sp[k].1, #[trigger] hs@[k])
                        && hs@[k].tokens@.len() > 0
                },
                Err(e) => exists|k: int|
                    0 <= k < sp.len() && spans_fine_before(sp, k) && #[trigger] span_error(sp[k].1, e),
            }
        }),
{
    let ghost ms = messages@;
    let n = messages.len();
    let cm: String = "compiler-message".to_owned();
    let mut rest = messages;
    let mut hs: Vec<Highlight> = Vec::new();
    let mut ws: Vec<String> = Vec::new();
    let mut i: usize = 0;
    proof {
        assert(ms.take(0) =~= Seq::<Message>::empty());
        assert(ms.skip(0) =~= ms);
        assert(strings_view(ws@) =~= Seq::<Seq<char>>::empty());
    }
    while rest.len() > 0
        invariant
            i <= ms.len(),
            ms.len() == n,
            ms == messages@,
            cm@ == "compiler-message"@,
            rest@ == ms.skip(i as int),
            spans_cuttable(ms),
            strings_view(ws@) == spanless_warnings(ms.take(i as int)),
            hs@.len() == highlight_spans(ms.take(i as int)).len(),
            forall|k: int| 0 <= k < hs@.len() ==> highlight_ok(
                highlight_spans(ms.take(i as int))[k].0,
                highlight_spans(ms.take(i as int))[k].1,
                #[trigger] hs@[k],
            ) && hs@[k].tokens@.len() > 0,
            forall|k: int| 0 <= k < highlight_spans(ms.take(i as int)).len() ==> highlight_spans(ms)[k]
                == #[trigger] highlight_spans(ms.take(i as int))[k],
            highlight_spans(ms.take(i as int)).len() <= highlight_spans(ms).len(),
        decreases rest@.len(),
    {
        let m = rest.remove(0);
        assert(m == ms[i as int]);
        proof {
            lemma_highlight_spans_push(ms, i as int);
            lemma_highlight_spans_prefix(ms, i + 1);
            assert(ms.skip(i + 1) =~= ms.skip(i as int).drop_first());
        }
        let ghost before = highlight_spans(ms.take(i as int));
        let ghost after = highlight_spans(ms.take(i + 1));
        let ghost ws_before = strings_view(ws@);
        if m.reason == cm {
            if let Some(d) = m.diagnostic {
                let is_error = match d.level {
                    DiagnosticLevel::Error => true,
                    _ => false,
                };
                if is_error && d.spans.len() == 0 {
                    let mut w = String::new();
                    crate::text::append_str(&mut w, "Found diagnostic error with no spans: ");
                    crate::text::append_str(&mut w, d.message.as_str());
                    ws.push(w);
                    assert(strings_view(ws@) =~= ws_before.push(spanless_warning(d.message@)));
                    assert(message_spans(ms[i as int]) =~= Seq::<(Seq<char>, DiagnosticSpan)>::empty());
                } else {
                    let ghost ds = d.spans@;
                    let ghost dm = d.message@;
                    assert(message_spans(ms[i as int]) == spans_with_text(dm, ds));
                    let ns = d.spans.len();
                    let mut spans = d.spans;
                    let mut j: usize = 0;
                    proof {
                        assert(ds.take(0) =~= Seq::<DiagnosticSpan>::empty());
                        assert(ds.skip(0) =~= ds);
                    }
                    while spans.len() > 0
                        invariant
                            j <= ds.len(),
                            ds.len() == ns,
                            d.message@ == dm,
                            spans@ == ds.skip(j as int),
                            after == before + spans_with_text(dm, ds),
                            after == highlight_spans(ms.take(i + 1)),
                            ms == messages@,
                            after.len() <= highlight_spans(ms).len(),
                            forall|k: int| 0 <= k < after.len() ==> highlight_spans(ms)[k] == #[trigger] after[k],
                            forall|k: int| 0 <= k < after.len() ==> span_cuttable(#[trigger] after[k].1),
                            hs@.len() == before.len() + spans_with_text(dm, ds.take(j as int)).len(),
                            spans_with_text(dm, ds.take(j as int)).len() <= spans_with_text(dm, ds).len(),
                            forall|k: int| 0 <= k < spans_with_text(dm, ds.take(j as int)).len() ==> spans_with_text(dm, ds)[k]
                                == #[trigger] spans_with_text(dm, ds.take(j as int))[k],
                            forall|k: int| 0 <= k < hs@.len() ==> highlight_ok(
                                after[k].0,
                                after[k].1,
                                #[trigger] hs@[k],
                            ) && hs@[k].tokens@.len() > 0,
                        decreases spans@.len(),
                    {
                        let span = spans.remove(0);
                        assert(span == ds[j as int]);
                        proof {
                            assert(ds.take(j + 1).drop_last() =~= ds.take(j as int));
                            lemma_spans_with_text_prefix(dm, ds, j + 1);
                            assert(ds.skip(j + 1) =~= ds.skip(j as int).drop_first());
                        }
                        if span.text.len() > 0 {
                            let ghost pos: int = (before.len() + spans_with_text(dm, ds.take(j as int)).len()) as int;
                            assert(spans_with_text(dm, ds.take(j + 1)) =~= spans_with_text(dm, ds.take(j as int)).push((dm, span)));
                            let ghost lj: int = spans_with_text(dm, ds.take(j as int)).len() as int;
                            assert(spans_with_text(dm, ds.take(j + 1))[lj] == (dm, span));
                            assert(spans_with_text(dm, ds)[lj] == (dm, span));
                            assert(after[pos] == spans_with_text(dm, ds)[lj]);
                            assert(after[pos] == (dm, span));
                            assert(lj < spans_with_text(dm, ds).len());
                            assert(span_cuttable(after[pos].1));
                            assert(after.len() <= highlight_spans(ms).len());
                            assert(highlight_spans(ms)[pos] == after[pos]);
                            match Highlight::try_new(d.message.as_str(), span) {
                                Ok(h) => {
                                    let ghost hv = h;
                                    if h.tokens.len() == 0 {
                                        proof {
                                            let sp = highlight_spans(ms);
                                            assert(strings_view(h.tokens@) =~= Seq::<Seq<char>>::empty());
                                            lemma_ok_is_fine(dm, span, hv);
                                            assert(span_error(sp[pos].1, CollectError::NoTokens));
                                            assert(0 <= pos < sp.len());
                                            assert forall|k2: int| 0 <= k2 < pos implies span_fine(#[trigger] sp[k2].1) by {
                                                lemma_ok_is_fine(after[k2].0, after[k2].1, hs@[k2]);
                                            }
                                        }
                                        return Err(CollectError::NoTokens);
                                    }
                                    assert(highlight_ok(dm, span, hv));
                                    hs.push(h);
                                    assert(hs@[pos] == hv);
                                    assert(highlight_ok(after[pos].0, after[pos].1, hs@[pos]));
                                },
                                Err(e) => {
                                    proof {
                                        let sp = highlight_spans(ms);
                                        assert(highlight_fails(sp[pos].1));
                                        assert(span_error(sp[pos].1, CollectError::Highlight(e)));
                                        assert(0 <= pos < sp.len());
                                        assert forall|k2: int| 0 <= k2 < pos implies span_fine(#[trigger] sp[k2].1) by {
                                            lemma_ok_is_fine(after[k2].0, after[k2].1, hs@[k2]);
                                        }
                                    }
                                    return Err(CollectError::Highlight(e));
                                },
                            }
                        } else {
                            assert(spans_with_text(dm, ds.take(j + 1)) =~= spans_with_text(dm, ds.take(j as int)));
                        }
                        j = j + 1;
                    }
                    assert(ds.take(j as int) =~= ds);
                    assert(strings_view(ws@) =~= ws_before);
                }
            } else {
                assert(message_spans(ms[i as int]) =~= Seq::<(Seq<char>, DiagnosticSpan)>::empty());
            }
        } else {
            assert(message_spans(ms[i as int]) =~= Seq::<(Seq<char>, DiagnosticSpan)>::empty());
        }
        i = i + 1;
    }
    assert(ms.take(i as int) =~= ms);
    Ok((hs, ws))
}

proof fn lemma_highlight_spans_prefix(ms: Seq<Message>, i: int)
    requires
        0 <= i <= ms.len(),
    ensures
        highlight_spans(ms.take(i)).len() <= highlight_spans(ms).len(),
        forall|k: int| 0 <= k < highlight_spans(ms.take(i)).len() ==> highlight_spans(ms)[k]
            == #[trigger] highlight_spans(ms.take(i))[k],
    decreases ms.len() - i,
{
    if i < ms.len() {
        lemma_highlight_spans_prefix(ms, i + 1);
        assert(ms.take(i + 1).drop_last() =~= ms.take(i));
        let a = highlight_spans(ms.take(i));
        let b = highlight_spans(ms.take(i + 1));
        assert(b == a + message_spans(ms.take(i + 1).last()));
        assert forall|k: int| 0 <= k < a.len() implies highlight_spans(ms)[k] == #[trigger] a[k] by {
            assert(b[k] == a[k]);
        }
    } else {
        assert(ms.take(i) =~= ms);
    }
}

proof fn lemma_spans_with_text_prefix(m: Seq<char>, ds: Seq<DiagnosticSpan>, j: int)
    requires
        0 <= j <= ds.len(),
    ensures
        spans_with_text(m, ds.take(j)).len() <= spans_with_text(m, ds).len(),
        forall|k: int| 0 <= k < spans_with_text(m, ds.take(j)).len() ==> spans_with_text(m, ds)[k]
            == #[trigger] spans_with_text(m, ds.take(j))[k],
    decreases ds.len() - j,
{
    if j < ds.len() {
        lemma_spans_with_text_prefix(m, ds, j + 1);
        assert(ds.take(j + 1).drop_last() =~= ds.take(j));
        let a = spans_with_text(m, ds.take(j));
        let b = spans_with_text(m, ds.take(j + 1));
        assert(b == a + if ds.take(j + 1).last().text@.len() > 0 {
            seq![(m, ds.take(j + 1).last())]
        } else {
            Seq::empty()
        });
        assert forall|k: int| 0 <= k < a.len() implies spans_with_text(m, ds)[k] == #[trigger] a[k] by {
            assert(b[k] == a[k]);
        }
    } else {
        assert(ds.take(j) =~= ds);
    }
}

} // verus!
