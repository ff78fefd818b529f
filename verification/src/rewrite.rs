//! Rewrite rules learned from the hunks of Clippy's history, and how well a rule applies to a
//! highlighted diagnostic.

use vstd::prelude::*;
use crate::dependency::strings_view;
use crate::highlight::Highlight;
use crate::tokenization::{lines_tokens, tokenize_lines, TokenizeError};

verus! {

/// A hunk with at least this many old lines and this many new lines is a refactor.
pub const REFACTOR_THRESHOLD: u32 = 3;

/// A rule that replaces some tokens by others: the old and new lines of a hunk, their tokens,
/// and how many leading and trailing tokens the two have in common.
#[derive(Debug)]
pub struct Rewrite {
    pub old_lines: Vec<String>,
    pub new_lines: Vec<String>,
    pub old_tokens: Vec<String>,
    pub new_tokens: Vec<String>,
    pub common_prefix_len: usize,
    pub common_suffix_len: usize,
}

/// `k` is the length of the longest common prefix of `a` and `b`.
pub open spec fn is_common_prefix_len(a: Seq<Seq<char>>, b: Seq<Seq<char>>, k: int) -> bool {
    &&& 0 <= k <= a.len()
    &&& k <= b.len()
    &&& forall|i: int| 0 <= i < k ==> #[trigger] a[i] == b[i]
    &&& (k == a.len() || k == b.len() || a[k] != b[k])
}

/// `k` is the length of the longest common suffix of `a` and `b`.
pub open spec fn is_common_suffix_len(a: Seq<Seq<char>>, b: Seq<Seq<char>>, k: int) -> bool {
    &&& 0 <= k <= a.len()
    &&& k <= b.len()
    &&& forall|i: int| 1 <= i <= k ==> #[trigger] a[a.len() - i] == b[b.len() - i]
    &&& (k == a.len() || k == b.len() || a[a.len() - k - 1] != b[b.len() - k - 1])
}

/// The rule is well formed: its prefix and suffix leave at least one old token to replace.
pub open spec fn rewrite_wf(r: Rewrite) -> bool {
    r.common_prefix_len + r.common_suffix_len < r.old_tokens@.len()
    && r.common_prefix_len + r.common_suffix_len < r.new_tokens@.len()
}

/// The old tokens that the rule replaces.
pub open spec fn needle(r: Rewrite) -> Seq<Seq<char>> {
    strings_view(r.old_tokens@).subrange(
        r.common_prefix_len as int,
        r.old_tokens@.len() - r.common_suffix_len,
    )
}

fn common_prefix_len(a: &Vec<String>, b: &Vec<String>) -> (k: usize)
    ensures
        is_common_prefix_len(strings_view(a@), strings_view(b@), k as int),
{
    let mut k: usize = 0;
    while k < a.len() && k < b.len() && a[k] == b[k]
        invariant
            k <= a@.len(),
            k <= b@.len(),
            forall|i: int| 0 <= i < k ==> #[trigger] a@[i]@ == b@[i]@,
        decreases a@.len() - k,
    {
        k = k + 1;
    }
    k
}

fn common_suffix_len(a: &Vec<String>, b: &Vec<String>) -> (k: usize)
    ensures
        is_common_suffix_len(strings_view(a@), strings_view(b@), k as int),
{
    let mut k: usize = 0;
    while k < a.len() && k < b.len() && a[a.len() - 1 - k] == b[b.len() - 1 - k]
        invariant
            k <= a@.len(),
            k <= b@.len(),
            forall|i: int| 1 <= i <= k ==> #[trigger] a@[a@.len() - i]@ == b@[b@.len() - i]@,
        decreases a@.len() - k,
    {
        k = k + 1;
    }
    k
}

/// A rule whose tokens are the given lines' tokens is discarded when its common prefix and
/// suffix cover the shorter side, i.e. when it only inserts or only deletes tokens.
pub open spec fn is_insertion_or_deletion(p: int, s: int, old_len: int, new_len: int) -> bool {
    p + s >= (if old_len <= new_len {
        old_len
    } else {
        new_len
    })
}

/// What `try_new` returns when both sides tokenize: `None` for an insertion or deletion, else
/// the rule with the sides' lines and tokens and their common prefix and suffix lengths.
pub open spec fn try_new_result(old_lines: Seq<String>, new_lines: Seq<String>, res: Option<Rewrite>) -> bool {
    &&& lines_tokens(strings_view(old_lines)) is Some
    &&& lines_tokens(strings_view(new_lines)) is Some
    &&& {
        let ot = lines_tokens(strings_view(old_lines))->0;
        let nt = lines_tokens(strings_view(new_lines))->0;
        match res {
            None => exists|p: int, s: int|
                is_common_prefix_len(ot, nt, p) && is_common_suffix_len(ot, nt, s)
                    && #[trigger] is_insertion_or_deletion(p, s, ot.len() as int, nt.len() as int),
            Some(rw) => {
                &&& rw.old_lines@ == old_lines
                &&& rw.new_lines@ == new_lines
                &&& strings_view(rw.old_tokens@) == ot
                &&& strings_view(rw.new_tokens@) == nt
                &&& is_common_prefix_len(ot, nt, rw.common_prefix_len as int)
                &&& is_common_suffix_len(ot, nt, rw.common_suffix_len as int)
                &&& !is_insertion_or_deletion(
                    rw.common_prefix_len as int,
                    rw.common_suffix_len as int,
                    ot.len() as int,
                    nt.len() as int,
                )
                &&& rewrite_wf(rw)
            },
        }
    }
}

impl Rewrite {
    /// Builds the rule for replacing `old_lines` by `new_lines`. Fails where either side cannot
    /// be tokenized (the old side is tried first); gives `None` where the rule would only insert
    /// or only delete tokens (the common prefix and suffix cover the shorter side).
    pub fn try_new(old_lines: Vec<String>, new_lines: Vec<String>) -> (r: Result<
        Option<Rewrite>,
        TokenizeError,
    >)
        ensures
            match r {
                Err(_) => lines_tokens(strings_view(old_lines@)) is None || lines_tokens(
                    strings_view(new_lines@),
                ) is None,
                Ok(res) => try_new_result(old_lines@, new_lines@, res),
            },
    {
        let old_tokens = match tokenize_lines(old_lines.as_slice()) {
            Ok(t) => t,
            Err(e) => return Err(e),
        };
        let new_tokens = match tokenize_lines(new_lines.as_slice()) {
            Ok(t) => t,
            Err(e) => return Err(e),
        };
        let p = common_prefix_len(&old_tokens, &new_tokens);
        let s = common_suffix_len(&old_tokens, &new_tokens);
        let min = if old_tokens.len() <= new_tokens.len() {
            old_tokens.len()
        } else {
            new_tokens.len()
        };
        assert(strings_view(old_tokens@).len() == old_tokens@.len());
        assert(strings_view(new_tokens@).len() == new_tokens@.len());
        if p >= min || s >= min - p {
            let ghost ot = strings_view(old_tokens@);
            let ghost nt = strings_view(new_tokens@);
            assert(is_common_prefix_len(ot, nt, p as int));
            assert(is_common_suffix_len(ot, nt, s as int));
            assert(is_insertion_or_deletion(p as int, s as int, ot.len() as int, nt.len() as int));
            assert(lines_tokens(strings_view(old_lines@)) == Some(ot));
            let ghost lo = lines_tokens(strings_view(old_lines@))->0;
            let ghost ln = lines_tokens(strings_view(new_lines@))->0;
            assert(lo == ot && ln == nt);
            assert(is_common_prefix_len(lo, ln, p as int) && is_common_suffix_len(lo, ln, s as int)
                && is_insertion_or_deletion(p as int, s as int, lo.len() as int, ln.len() as int));
            assert(try_new_result(old_lines@, new_lines@, None));
            Ok(None)
        } else {
            let ghost ol = old_lines@;
            let ghost nl = new_lines@;
            let rw = Rewrite {
                old_lines,
                new_lines,
                old_tokens,
                new_tokens,
                common_prefix_len: p,
                common_suffix_len: s,
            };
            assert(rw.old_lines@ == ol);
            assert(rewrite_wf(rw));
            assert(strings_view(rw.old_tokens@) == lines_tokens(strings_view(ol))->0);
            assert(is_common_prefix_len(strings_view(rw.old_tokens@), strings_view(rw.new_tokens@), p as int));
            assert(try_new_result(ol, nl, Some(rw)));
            Ok(Some(rw))
        }
    }
}

/// `ys` occurs in `xs` at `i`.
pub open spec fn occurs_at(xs: Seq<Seq<char>>, ys: Seq<Seq<char>>, i: int) -> bool {
    0 <= i && i + ys.len() <= xs.len() && xs.subrange(i, i + ys.len()) == ys
}

/// The first position at which `ys` occurs in `xs`, if any.
pub fn subslice_position(xs: &[String], ys: &[String]) -> (r: Option<usize>)
    requires
        ys@.len() > 0,
    ensures
        match r {
            Some(i) => occurs_at(strings_view(xs@), strings_view(ys@), i as int) && forall|j: int|
                0 <= j < i ==> !occurs_at(strings_view(xs@), strings_view(ys@), j),
            None => forall|j: int| !occurs_at(strings_view(xs@), strings_view(ys@), j),
        },
{
    let ghost xv = strings_view(xs@);
    let ghost yv = strings_view(ys@);
    if ys.len() > xs.len() {
        return None;
    }
    let mut i: usize = 0;
    let last: usize = xs.len() - ys.len();
    while i <= last
        invariant
            last == xs@.len() - ys@.len(),
            xs@.len() <= usize::MAX,
            ys@.len() <= xs@.len(),
            xv == strings_view(xs@),
            yv == strings_view(ys@),
            forall|j: int| 0 <= j < i ==> !occurs_at(xv, yv, j),
        decreases last + 1 - i,
    {
        let mut k: usize = 0;
        let mut same = true;
        while k < ys.len() && same
            invariant
                k <= ys@.len(),
                i + ys@.len() <= xs@.len(),
                xs@.len() <= usize::MAX,
                forall|m: int| 0 <= m < k ==> xs@[i + m]@ == #[trigger] ys@[m]@,
                !same ==> k < ys@.len() && xs@[i + k]@ != ys@[k as int]@,
            decreases ys@.len() - k + (if same { 1int } else { 0 }),
        {
            if xs[i + k] == ys[k] {
                k = k + 1;
            } else {
                same = false;
            }
        }
        if same {
            assert(xv.subrange(i as int, i + yv.len()) =~= yv);
            return Some(i);
        }
        assert(xv.subrange(i as int, i + yv.len())[k as int] != yv[k as int]);
        i = i + 1;
    }
    assert forall|j: int| !occurs_at(xv, yv, j) by {
        if 0 <= j && j + yv.len() <= xv.len() {
            assert(j < i);
        }
    }
    None
}

/// How many tokens agree, walking backwards from the ends of `a` and `b`.
pub open spec fn agree_from_end(a: Seq<Seq<char>>, b: Seq<Seq<char>>, k: int) -> bool {
    is_common_suffix_len(a, b, k)
}

/// How many tokens agree, walking forwards from the starts of `a` and `b`.
pub open spec fn agree_from_start(a: Seq<Seq<char>>, b: Seq<Seq<char>>, k: int) -> bool {
    is_common_prefix_len(a, b, k)
}

fn count_agree_from_end(a: &Vec<String>, a_end: usize, b: &Vec<String>, b_end: usize) -> (k: usize)
    requires
        a_end <= a@.len(),
        b_end <= b@.len(),
    ensures
        agree_from_end(strings_view(a@).take(a_end as int), strings_view(b@).take(b_end as int), k as int),
{
    let ghost av = strings_view(a@).take(a_end as int);
    let ghost bv = strings_view(b@).take(b_end as int);
    let mut k: usize = 0;
    while k < a_end && k < b_end && a[a_end - 1 - k] == b[b_end - 1 - k]
        invariant
            a_end <= a@.len(),
            b_end <= b@.len(),
            av == strings_view(a@).take(a_end as int),
            bv == strings_view(b@).take(b_end as int),
            k <= a_end,
            k <= b_end,
            forall|i: int| 1 <= i <= k ==> #[trigger] av[av.len() - i] == bv[bv.len() - i],
        decreases a_end - k,
    {
        assert(av[av.len() - (k + 1)] == a@[a_end - 1 - k]@);
        k = k + 1;
    }
    k
}

fn count_agree_from_start(a: &Vec<String>, a_start: usize, b: &Vec<String>, b_start: usize) -> (k: usize)
    requires
        a_start <= a@.len(),
        b_start <= b@.len(),
    ensures
        agree_from_start(strings_view(a@).skip(a_start as int), strings_view(b@).skip(b_start as int), k as int),
{
    let ghost av = strings_view(a@).skip(a_start as int);
    let ghost bv = strings_view(b@).skip(b_start as int);
    let mut k: usize = 0;
    while k < a.len() - a_start && k < b.len() - b_start && a[a_start + k] == b[b_start + k]
        invariant
            a_start <= a@.len(),
            b_start <= b@.len(),
            av == strings_view(a@).skip(a_start as int),
            bv == strings_view(b@).skip(b_start as int),
            a_start + k <= a@.len(),
            b_start + k <= b@.len(),
            forall|i: int| 0 <= i < k ==> #[trigger] av[i] == bv[i],
        decreases a@.len() - k,
    {
        k = k + 1;
    }
    k
}

/// What `applicability` computes: `None` when the rule's replaced tokens do not occur among the
/// highlight's tokens, or their first occurrence changes none of the highlighted tokens; else the
/// score (tokens of the rule's prefix that agree with those before the highlighted range, counted
/// backwards, plus the replaced tokens, plus tokens of the rule's suffix that agree with those
/// after the highlighted range) and where the replaced tokens start.
pub open spec fn applicability_ok(rw: Rewrite, h: Highlight, r: Option<(usize, usize)>) -> bool {
    let toks = strings_view(h.tokens@);
    let nd = needle(rw);
    let old = strings_view(rw.old_tokens@);
    match r {
        None => (forall|j: int| !occurs_at(toks, nd, j)) || exists|i: int|
            occurs_at(toks, nd, i) && (forall|j: int| 0 <= j < i ==> !occurs_at(toks, nd, j)) && (i
                + nd.len() <= h.highlight_start || h.highlight_end <= i),
        Some((score, i)) => {
            &&& occurs_at(toks, nd, i as int)
            &&& forall|j: int| 0 <= j < i ==> !occurs_at(toks, nd, j)
            &&& !(i + nd.len() <= h.highlight_start || h.highlight_end <= i)
            &&& exists|before: int, after: int|
                #[trigger] agree_from_end(
                    old.take(rw.common_prefix_len as int),
                    toks.take(h.highlight_start as int),
                    before,
                ) && #[trigger] agree_from_start(
                    old.skip(old.len() - rw.common_suffix_len),
                    toks.skip(h.highlight_end as int),
                    after,
                ) && score == before + nd.len() + after
        },
    }
}

impl Rewrite {
    /// Whether this rule would change at least one of the highlight's highlighted tokens, and if
    /// so its score and where the replacement would start (see [`applicability_ok`]).
    pub fn applicability(&self, highlight: &Highlight) -> (r: Option<(usize, usize)>)
        requires
            self.common_prefix_len + self.common_suffix_len < self.old_tokens@.len(),
            highlight.highlight_start <= highlight.tokens@.len(),
            highlight.highlight_end <= highlight.tokens@.len(),
        ensures
            applicability_ok(*self, *highlight, r),
    {
        let ghost old = strings_view(self.old_tokens@);
        let ghost toks = strings_view(highlight.tokens@);
        let n = self.old_tokens.len() - self.common_suffix_len;
        let needle = crate::text::copy_strings_range(&self.old_tokens, self.common_prefix_len, n);
        assert(strings_view(needle@) =~= needle_of(*self));
        let i = match subslice_position(highlight.tokens.as_slice(), needle.as_slice()) {
            Some(i) => i,
            None => return None,
        };
        let nl = needle.len();
        let nt = highlight.tokens.len();
        assert(strings_view(needle@).len() == nl);
        assert(i + nl <= highlight.tokens@.len());
        if i + nl <= highlight.highlight_start || highlight.highlight_end <= i {
            return None;
        }
        let n_eq_before = count_agree_from_end(
            &self.old_tokens,
            self.common_prefix_len,
            &highlight.tokens,
            highlight.highlight_start,
        );
        let n_eq_after = count_agree_from_start(
            &self.old_tokens,
            n,
            &highlight.tokens,
            highlight.highlight_end,
        );
        assert(old.take(self.common_prefix_len as int) =~= strings_view(self.old_tokens@).take(self.common_prefix_len as int));
        assert(n_eq_before <= self.common_prefix_len);
        assert(n_eq_after <= self.common_suffix_len);
        let score = n_eq_before + nl + n_eq_after;
        Some((score, i))
    }
}

proof fn lemma_prefix_len_unique(a: Seq<Seq<char>>, b: Seq<Seq<char>>, k1: int, k2: int)
    requires
        is_common_prefix_len(a, b, k1),
        is_common_prefix_len(a, b, k2),
    ensures
        k1 == k2,
{
    if k1 < k2 {
        assert(a[k1] == b[k1]);
    } else if k2 < k1 {
        assert(a[k2] == b[k2]);
    }
}

proof fn lemma_suffix_len_unique(a: Seq<Seq<char>>, b: Seq<Seq<char>>, k1: int, k2: int)
    requires
        is_common_suffix_len(a, b, k1),
        is_common_suffix_len(a, b, k2),
    ensures
        k1 == k2,
{
    if k1 < k2 {
        assert(a[a.len() - (k1 + 1)] == b[b.len() - (k1 + 1)]);
    } else if k2 < k1 {
        assert(a[a.len() - (k2 + 1)] == b[b.len() - (k2 + 1)]);
    }
}

proof fn lemma_first_occurrence_unique(xs: Seq<Seq<char>>, ys: Seq<Seq<char>>, i1: int, i2: int)
    requires
        occurs_at(xs, ys, i1),
        forall|j: int| 0 <= j < i1 ==> !occurs_at(xs, ys, j),
        occurs_at(xs, ys, i2),
        forall|j: int| 0 <= j < i2 ==> !occurs_at(xs, ys, j),
    ensures
        i1 == i2,
{
}

/// A rule's applicability to a highlight is determined: at most one outcome meets
/// [`applicability_ok`].
pub proof fn lemma_applicability_unique(
    rw: Rewrite,
    h: Highlight,
    r1: Option<(usize, usize)>,
    r2: Option<(usize, usize)>,
)
    requires
        applicability_ok(rw, h, r1),
        applicability_ok(rw, h, r2),
    ensures
        r1 == r2,
{
    let toks = strings_view(h.tokens@);
    let nd = needle(rw);
    let old = strings_view(rw.old_tokens@);
    match (r1, r2) {
        (Some((s1, i1)), Some((s2, i2))) => {
            lemma_first_occurrence_unique(toks, nd, i1 as int, i2 as int);
            let (b1, a1) = choose|before: int, after: int|
                #[trigger] agree_from_end(
                    old.take(rw.common_prefix_len as int),
                    toks.take(h.highlight_start as int),
                    before,
                ) && #[trigger] agree_from_start(
                    old.skip(old.len() - rw.common_suffix_len),
                    toks.skip(h.highlight_end as int),
                    after,
                ) && s1 == before + nd.len() + after;
            let (b2, a2) = choose|before: int, after: int|
                #[trigger] agree_from_end(
                    old.take(rw.common_prefix_len as int),
                    toks.take(h.highlight_start as int),
                    before,
                ) && #[trigger] agree_from_start(
                    old.skip(old.len() - rw.common_suffix_len),
                    toks.skip(h.highlight_end as int),
                    after,
                ) && s2 == before + nd.len() + after;
            lemma_suffix_len_unique(
                old.take(rw.common_prefix_len as int),
                toks.take(h.highlight_start as int),
                b1,
                b2,
            );
            lemma_prefix_len_unique(
                old.skip(old.len() - rw.common_suffix_len),
                toks.skip(h.highlight_end as int),
                a1,
                a2,
            );
        },
        (Some((s1, i1)), None) => {
            if !(forall|j: int| !occurs_at(toks, nd, j)) {
                let i = choose|i: int|
                    occurs_at(toks, nd, i) && (forall|j: int| 0 <= j < i ==> !occurs_at(toks, nd, j))
                        && (i + nd.len() <= h.highlight_start || h.highlight_end <= i);
                lemma_first_occurrence_unique(toks, nd, i1 as int, i);
            }
        },
        (None, Some((s2, i2))) => {
            if !(forall|j: int| !occurs_at(toks, nd, j)) {
                let i = choose|i: int|
                    occurs_at(toks, nd, i) && (forall|j: int| 0 <= j < i ==> !occurs_at(toks, nd, j))
                        && (i + nd.len() <= h.highlight_start || h.highlight_end <= i);
                lemma_first_occurrence_unique(toks, nd, i2 as int, i);
            }
        },
        (None, None) => {},
    }
}

/// The old tokens that a rule replaces (the same as [`needle`]).
pub open spec fn needle_of(r: Rewrite) -> Seq<Seq<char>> {
    needle(r)
}

/// Whether a hunk is a refactor: both its old and its new line counts reach the threshold.
pub fn hunk_is_refactor(old_lines: u32, new_lines: u32) -> (r: bool)
    ensures
        r == (old_lines >= REFACTOR_THRESHOLD && new_lines >= REFACTOR_THRESHOLD),
{
    old_lines >= REFACTOR_THRESHOLD && new_lines >= REFACTOR_THRESHOLD
}

/// What a hunk contributes to the rules.
#[derive(Debug, PartialEq, Eq, Structural)]
pub enum HunkUse {
    /// The hunk's line counts disagree with its lines: it is skipped with a warning.
    Malformed,
    /// The hunk removes nothing: it only inserts.
    Insertion,
    /// The hunk is a refactor.
    Refactor,
    /// The hunk's old and new lines make a rule candidate.
    Candidate,
}

/// Classifies a hunk from its old and new line counts and the number of lines it holds.
pub fn classify_hunk(old_lines: u32, new_lines: u32, line_count: usize) -> (r: HunkUse)
    ensures
        r == (if old_lines + new_lines != line_count {
            HunkUse::Malformed
        } else if old_lines == 0 {
            HunkUse::Insertion
        } else if old_lines >= REFACTOR_THRESHOLD && new_lines >= REFACTOR_THRESHOLD {
            HunkUse::Refactor
        } else {
            HunkUse::Candidate
        }),
{
    let total: u64 = old_lines as u64 + new_lines as u64;
    if total != line_count as u64 {
        HunkUse::Malformed
    } else if old_lines == 0 {
        HunkUse::Insertion
    } else if hunk_is_refactor(old_lines, new_lines) {
        HunkUse::Refactor
    } else {
        HunkUse::Candidate
    }
}

/// A hunk of a patch: its old and new line counts, and its lines (old ones first).
#[derive(Debug)]
pub struct Hunk {
    pub old_lines: u32,
    pub new_lines: u32,
    pub lines: Vec<String>,
}

/// What a hunk gives.
#[derive(Debug)]
pub enum HunkRule {
    /// The hunk's line counts disagree with its lines: the warning to give.
    Malformed(String),
    /// The hunk only inserts lines.
    Insertion,
    /// The hunk is a refactor.
    Refactor,
    /// The rule its old and new lines make, unless it would only insert or delete tokens.
    Rule(Option<Rewrite>),
}

/// The warning for a malformed hunk.
pub open spec fn malformed_warning(old_lines: u32, new_lines: u32, count: nat) -> Seq<char> {
    "Malformed hunk: old lines ("@ + crate::clippy_utils::decimal(old_lines as nat)
        + ") + new lines ("@ + crate::clippy_utils::decimal(new_lines as nat)
        + ") != line count ("@ + crate::clippy_utils::decimal(count) + ")"@
}

/// `r` is what the hunk gives (see [`classify_hunk`] and [`Rewrite::try_new`]).
pub open spec fn hunk_rule_ok(h: Hunk, r: HunkRule) -> bool {
    let old = h.lines@.take(h.old_lines as int);
    let new = h.lines@.skip(h.old_lines as int);
    match r {
        HunkRule::Malformed(w) => h.old_lines + h.new_lines != h.lines@.len() && w@ == malformed_warning(
            h.old_lines,
            h.new_lines,
            h.lines@.len(),
        ),
        HunkRule::Insertion => h.old_lines + h.new_lines == h.lines@.len() && h.old_lines == 0,
        HunkRule::Refactor => h.old_lines + h.new_lines == h.lines@.len() && h.old_lines != 0
            && h.old_lines >= REFACTOR_THRESHOLD && h.new_lines >= REFACTOR_THRESHOLD,
        HunkRule::Rule(res) => h.old_lines + h.new_lines == h.lines@.len() && h.old_lines != 0
            && !(h.old_lines >= REFACTOR_THRESHOLD && h.new_lines >= REFACTOR_THRESHOLD)
            && try_new_result(old, new, res),
    }
}

/// What a hunk gives: a warning where its line counts disagree with its lines; nothing where it
/// only inserts or is a refactor; else the rule made from its old and new lines. Fails where those
/// lines cannot be tokenized.
pub fn hunk_rule(h: Hunk) -> (r: Result<HunkRule, TokenizeError>)
    ensures
        match r {
            Ok(x) => hunk_rule_ok(h, x),
            Err(_) => h.old_lines + h.new_lines == h.lines@.len() && h.old_lines != 0
                && !(h.old_lines >= REFACTOR_THRESHOLD && h.new_lines >= REFACTOR_THRESHOLD) && (
            lines_tokens(strings_view(h.lines@.take(h.old_lines as int))) is None || lines_tokens(
                strings_view(h.lines@.skip(h.old_lines as int)),
            ) is None),
        },
{
    let ghost hv = h;
    let count = h.lines.len();
    match classify_hunk(h.old_lines, h.new_lines, count) {
        HunkUse::Malformed => {
            let mut w = String::new();
            crate::text::append_str(&mut w, "Malformed hunk: old lines (");
            crate::clippy_utils::push_decimal(&mut w, h.old_lines as u64);
            crate::text::append_str(&mut w, ") + new lines (");
            crate::clippy_utils::push_decimal(&mut w, h.new_lines as u64);
            crate::text::append_str(&mut w, ") != line count (");
            crate::clippy_utils::push_decimal(&mut w, count as u64);
            crate::text::append_str(&mut w, ")");
            Ok(HunkRule::Malformed(w))
        },
        HunkUse::Insertion => Ok(HunkRule::Insertion),
        HunkUse::Refactor => Ok(HunkRule::Refactor),
        HunkUse::Candidate => {
            let k = h.old_lines as usize;
            let old = crate::text::copy_strings_range(&h.lines, 0, k);
            let new = crate::text::copy_strings_range(&h.lines, k, count);
            assert(old@ =~= hv.lines@.take(k as int));
            assert(new@ =~= hv.lines@.skip(k as int));
            match Rewrite::try_new(old, new) {
                Ok(res) => Ok(HunkRule::Rule(res)),
                Err(e) => Err(e),
            }
        },
    }
}

/// The two rules have the same lines, tokens, prefix and suffix.
pub open spec fn same_rule(a: Rewrite, b: Rewrite) -> bool {
    &&& strings_view(a.old_lines@) == strings_view(b.old_lines@)
    &&& strings_view(a.new_lines@) == strings_view(b.new_lines@)
    &&& strings_view(a.old_tokens@) == strings_view(b.old_tokens@)
    &&& strings_view(a.new_tokens@) == strings_view(b.new_tokens@)
    &&& a.common_prefix_len == b.common_prefix_len
    &&& a.common_suffix_len == b.common_suffix_len
}

fn same_strings(a: &Vec<String>, b: &Vec<String>) -> (r: bool)
    ensures
        r == (strings_view(a@) == strings_view(b@)),
{
    if a.len() != b.len() {
        assert(strings_view(a@).len() != strings_view(b@).len());
        return false;
    }
    let mut i: usize = 0;
    while i < a.len()
        invariant
            a@.len() == b@.len(),
            i <= a@.len(),
            forall|j: int| 0 <= j < i ==> a@[j]@ == b@[j]@,
        decreases a@.len() - i,
    {
        if !(a[i] == b[i]) {
            assert(strings_view(a@)[i as int] != strings_view(b@)[i as int]);
            return false;
        }
        i = i + 1;
    }
    assert(strings_view(a@) =~= strings_view(b@));
    true
}

fn rule_eq(a: &Rewrite, b: &Rewrite) -> (r: bool)
    ensures
        r == same_rule(*a, *b),
{
    a.common_prefix_len == b.common_prefix_len && a.common_suffix_len == b.common_suffix_len
        && same_strings(&a.old_lines, &b.old_lines) && same_strings(&a.new_lines, &b.new_lines)
        && same_strings(&a.old_tokens, &b.old_tokens) && same_strings(&a.new_tokens, &b.new_tokens)
}

/// No two rules are the same.
pub open spec fn distinct_rules(rules: Seq<(Rewrite, crate::revs::Oid)>) -> bool {
    forall|i: int, j: int| 0 <= i < j < rules.len() ==> !same_rule(#[trigger] rules[i].0, #[trigger] rules[j].0)
}

/// Adds a rule learned from commit `oid`, unless the same rule is already there (the first commit
/// that gives a rule is the one recorded).
pub fn add_rule(rules: &mut Vec<(Rewrite, crate::revs::Oid)>, rw: Rewrite, oid: crate::revs::Oid)
    ensures
        (exists|k: int| 0 <= k < old(rules)@.len() && same_rule(#[trigger] old(rules)@[k].0, rw))
            ==> final(rules)@ == old(rules)@,
        !(exists|k: int| 0 <= k < old(rules)@.len() && same_rule(#[trigger] old(rules)@[k].0, rw))
            ==> final(rules)@ == old(rules)@.push((rw, oid)),
        distinct_rules(old(rules)@) ==> distinct_rules(final(rules)@),
{
    let mut k: usize = 0;
    while k < rules.len()
        invariant
            rules@ == old(rules)@,
            k <= rules@.len(),
            forall|j: int| 0 <= j < k ==> !same_rule(#[trigger] rules@[j].0, rw),
        decreases rules@.len() - k,
    {
        if rule_eq(&rules[k].0, &rw) {
            return;
        }
        k = k + 1;
    }
    rules.push((rw, oid));
    proof {
        assert forall|i: int, j: int| 0 <= i < j < rules@.len() && distinct_rules(old(rules)@) implies !same_rule(
            #[trigger] rules@[i].0,
            #[trigger] rules@[j].0,
        ) by {
            if j == rules@.len() - 1 {
                assert(rules@[j].0 == rw);
                assert(!same_rule(old(rules)@[i].0, rw));
            } else {
                assert(rules@[i] == old(rules)@[i] && rules@[j] == old(rules)@[j]);
            }
        }
    }
}

} // verus!
