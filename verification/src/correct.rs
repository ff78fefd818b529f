//! Choosing the rewrite for a highlighted diagnostic: what each rule offers, the best offer for
//! each distinct replacement text, and the decision to rewrite, to skip, or to report the
//! highlight as unrewritable.

use vstd::prelude::*;
use crate::dependency::strings_view;
use crate::highlight::Highlight;
use crate::revs::Oid;
use crate::rewrite::{applicability_ok, lemma_applicability_unique, needle, rewrite_wf, Rewrite};
use crate::span::{located, span_and_text_of_tokens, span_view, Span, SpanError};
use crate::text::{lemma_lex_antisym, lemma_lex_total, lemma_lex_trans, lex_le, str_le};

verus! {

/// What a rule offers for a highlight.
#[derive(Debug)]
pub struct Candidate {
    /// The rule's score (see `Rewrite::applicability`).
    pub score: usize,
    /// The token index in the highlight where the replaced tokens start.
    pub offset: usize,
    /// The text that replaces them.
    pub text: String,
    /// The span, in the file, of the text that is replaced.
    pub span: Span,
}

/// The highlight's token indices lie within its tokens.
pub open spec fn highlight_wf(h: Highlight) -> bool {
    h.highlight_start <= h.tokens@.len() && h.highlight_end <= h.tokens@.len()
}

/// The text of a rule's new tokens that replace old ones (those between its common prefix and
/// suffix), read from its new lines, which start at line 1.
pub open spec fn replacement_text(rw: Rewrite) -> Option<Seq<char>> {
    match located(
        1,
        strings_view(rw.new_lines@),
        rw.common_prefix_len as int,
        rw.new_tokens@.len() - rw.common_suffix_len,
    ) {
        Some((_, t)) => Some(t),
        None => None,
    }
}

/// The span, in the highlight's file, of the rule's replaced tokens when they start at token
/// `offset` of the highlight.
pub open spec fn replaced_span(rw: Rewrite, h: Highlight, offset: int) -> Option<
    ((int, int), (int, int)),
> {
    match located(
        h.line_start as int,
        strings_view(h.lines@),
        offset,
        offset + needle(rw).len(),
    ) {
        Some((sp, _)) => Some(sp),
        None => None,
    }
}

/// `c` is what the rule offers for the highlight: nothing where the rule does not apply, else its
/// score, offset, replacement text and replaced span.
pub open spec fn candidate_ok(rw: Rewrite, h: Highlight, c: Option<Candidate>) -> bool {
    match c {
        None => applicability_ok(rw, h, None),
        Some(c) => {
            &&& applicability_ok(rw, h, Some((c.score, c.offset)))
            &&& replacement_text(rw) == Some(c.text@)
            &&& replaced_span(rw, h, c.offset as int) == Some(span_view(c.span))
        },
    }
}

/// The rule applies to the highlight, but its replacement text or the replaced span cannot be
/// located.
pub open spec fn rule_fails(rw: Rewrite, h: Highlight) -> bool {
    exists|s: usize, o: usize|
        #[trigger] applicability_ok(rw, h, Some((s, o))) && (replacement_text(rw) is None
            || replaced_span(rw, h, o as int) is None)
}

/// A rule with an offer (or none) for the highlight does not fail on it.
proof fn lemma_candidate_not_fails(rw: Rewrite, h: Highlight, c: Option<Candidate>)
    requires
        candidate_ok(rw, h, c),
    ensures
        !rule_fails(rw, h),
{
    if rule_fails(rw, h) {
        let (s, o) = choose|s: usize, o: usize|
            #[trigger] applicability_ok(rw, h, Some((s, o))) && (replacement_text(rw) is None
                || replaced_span(rw, h, o as int) is None);
        match c {
            None => lemma_applicability_unique(rw, h, None, Some((s, o))),
            Some(c) => lemma_applicability_unique(rw, h, Some((c.score, c.offset)), Some((s, o))),
        }
    }
}

/// The rules before `k` do not fail on the highlight.
pub open spec fn rules_fine_before(rules: Seq<(Rewrite, Oid)>, h: Highlight, k: int) -> bool {
    forall|k2: int| 0 <= k2 < k ==> !rule_fails(#[trigger] rules[k2].0, h)
}

/// What one rule offers for the highlight; fails where the rule applies but the texts cannot be
/// located.
fn candidate_of(rw: &Rewrite, h: &Highlight) -> (r: Result<Option<Candidate>, SpanError>)
    requires
        rewrite_wf(*rw),
        highlight_wf(*h),
    ensures
        r matches Ok(c) ==> candidate_ok(*rw, *h, c),
        r is Err ==> rule_fails(*rw, *h),
{
    let (score, offset) = match rw.applicability(h) {
        Some(x) => x,
        None => return Ok(None),
    };
    assert(applicability_ok(*rw, *h, Some((score, offset))));
    let (_, text) = match span_and_text_of_tokens(
        1,
        rw.new_lines.as_slice(),
        rw.common_prefix_len,
        rw.new_tokens.len() - rw.common_suffix_len,
    ) {
        Ok(x) => x,
        Err(e) => return Err(e),
    };
    let n = rw.old_tokens.len() - rw.common_suffix_len - rw.common_prefix_len;
    assert(needle(*rw).len() == n);
    let nt = h.tokens.len();
    assert(offset + n <= nt);
    let (span, _) = match span_and_text_of_tokens(h.line_start, h.lines.as_slice(), offset, offset + n) {
        Ok(x) => x,
        Err(e) => return Err(e),
    };
    Ok(Some(Candidate { score, offset, text, span }))
}

/// What each rule offers for the highlight, in the order of the rules; fails where some rule
/// applies but its texts cannot be located.
pub fn rule_candidates(rules: &Vec<(Rewrite, Oid)>, h: &Highlight) -> (r: Result<
    Vec<Option<Candidate>>,
    SpanError,
>)
    requires
        forall|k: int| 0 <= k < rules@.len() ==> rewrite_wf(#[trigger] rules@[k].0),
        highlight_wf(*h),
    ensures
        match r {
            Ok(cs) => cs@.len() == rules@.len() && forall|k: int|
                0 <= k < rules@.len() ==> candidate_ok(#[trigger] rules@[k].0, *h, cs@[k]),
            Err(_) => exists|k: int|
                0 <= k < rules@.len() && rules_fine_before(rules@, *h, k) && rule_fails(
                    #[trigger] rules@[k].0,
                    *h,
                ),
        },
{
    let mut cs: Vec<Option<Candidate>> = Vec::new();
    let mut k: usize = 0;
    while k < rules.len()
        invariant
            k <= rules@.len(),
            cs@.len() == k,
            forall|m: int| 0 <= m < rules@.len() ==> rewrite_wf(#[trigger] rules@[m].0),
            highlight_wf(*h),
            forall|m: int| 0 <= m < k ==> candidate_ok(#[trigger] rules@[m].0, *h, cs@[m]),
        decreases rules@.len() - k,
    {
        match candidate_of(&rules[k].0, h) {
            Ok(c) => cs.push(c),
            Err(e) => {
                assert(rule_fails(rules@[k as int].0, *h));
                assert forall|k2: int| 0 <= k2 < k implies !rule_fails(#[trigger] rules@[k2].0, *h) by {
                    lemma_candidate_not_fails(rules@[k2].0, *h, cs@[k2]);
                }
                assert(rules_fine_before(rules@, *h, k as int));
                return Err(e);
            },
        }
        k = k + 1;
    }
    Ok(cs)
}

/// Where a replacement comes from: the score, the span replaced, the commit of the rule, and the
/// rule's index.
#[derive(Clone, Copy, Debug)]
pub struct ReplacementSource {
    pub score: usize,
    pub span: Span,
    pub oid: Oid,
    pub rule: usize,
}

/// `a` comes strictly before `b` (the order of `str`'s `Ord`).
pub open spec fn key_lt(a: Seq<char>, b: Seq<char>) -> bool {
    lex_le(a, b) && a != b
}

/// `src` is the best offer for `key` among the first `n` candidates: the first of those with the
/// highest score among the offers of `key`.
pub open spec fn best_entry(
    rules: Seq<(Rewrite, Oid)>,
    cands: Seq<Option<Candidate>>,
    n: int,
    key: Seq<char>,
    src: ReplacementSource,
) -> bool {
    &&& 0 <= src.rule < n
    &&& src.rule < cands.len()
    &&& src.rule < rules.len()
    &&& cands[src.rule as int] matches Some(c) && c.text@ == key && c.score == src.score && c.span
        == src.span
    &&& src.oid == rules[src.rule as int].1
    &&& forall|j: int| 0 <= j < n ==> offer_bounded(#[trigger] cands[j], j, key, src)
}

/// An offer of `key` by candidate `j` scores at most `src`, and less where it comes before it.
pub open spec fn offer_bounded(c: Option<Candidate>, j: int, key: Seq<char>, src: ReplacementSource) -> bool {
    match c {
        Some(d) => d.text@ == key ==> d.score <= src.score && (j < src.rule ==> d.score < src.score),
        None => true,
    }
}

/// `entries` maps each replacement text offered by the first `n` candidates, in the order of the
/// texts, to its best offer.
pub open spec fn best_by_text(
    rules: Seq<(Rewrite, Oid)>,
    cands: Seq<Option<Candidate>>,
    n: int,
    entries: Seq<(String, ReplacementSource)>,
) -> bool {
    &&& forall|i: int, j: int|
        0 <= i < j < entries.len() ==> key_lt(#[trigger] entries[i].0@, #[trigger] entries[j].0@)
    &&& forall|i: int|
        0 <= i < entries.len() ==> best_entry(rules, cands, n, #[trigger] entries[i].0@, entries[i].1)
    &&& forall|j: int|
        0 <= j < n ==> (#[trigger] cands[j] matches Some(d) ==> exists|i: int|
            0 <= i < entries.len() && #[trigger] entries[i].0@ == d.text@)
}

proof fn lemma_key_lt_trans(a: Seq<char>, b: Seq<char>, c: Seq<char>)
    requires
        key_lt(a, b),
        key_lt(b, c),
    ensures
        key_lt(a, c),
{
    lemma_lex_trans(a, b, c);
    if a == c {
        lemma_lex_antisym(a, b);
    }
}

fn str_eq(a: &String, b: &String) -> (r: bool)
    ensures
        r == (a@ == b@),
{
    *a == *b
}

/// The offer of candidate `j` (of rule `j`).
pub open spec fn offer_of(rules: Seq<(Rewrite, Oid)>, d: Candidate, j: int) -> ReplacementSource {
    ReplacementSource { score: d.score, span: d.span, oid: rules[j].1, rule: j as usize }
}

proof fn lemma_step_none(
    rules: Seq<(Rewrite, Oid)>,
    cv: Seq<Option<Candidate>>,
    j: int,
    es: Seq<(String, ReplacementSource)>,
)
    requires
        0 <= j < cv.len(),
        cv[j] is None,
        best_by_text(rules, cv, j, es),
    ensures
        best_by_text(rules, cv, j + 1, es),
{
    assert forall|m: int| 0 <= m < es.len() implies best_entry(rules, cv, j + 1, #[trigger] es[m].0@, es[m].1) by {
        assert(best_entry(rules, cv, j, es[m].0@, es[m].1));
    }
}

proof fn lemma_step_keep(
    rules: Seq<(Rewrite, Oid)>,
    cv: Seq<Option<Candidate>>,
    j: int,
    es: Seq<(String, ReplacementSource)>,
    i: int,
)
    requires
        0 <= j < cv.len(),
        cv[j] matches Some(d) && 0 <= i < es.len() && es[i].0@ == d.text@ && es[i].1.score >= d.score,
        best_by_text(rules, cv, j, es),
    ensures
        best_by_text(rules, cv, j + 1, es),
{
    let d = cv[j]->0;
    assert forall|m: int| 0 <= m < es.len() implies best_entry(rules, cv, j + 1, #[trigger] es[m].0@, es[m].1) by {
        assert(best_entry(rules, cv, j, es[m].0@, es[m].1));
        if m != i {
            assert(es[m].0@ != d.text@) by {
                if m < i {
                    assert(key_lt(es[m].0@, es[i].0@));
                } else {
                    assert(key_lt(es[i].0@, es[m].0@));
                }
            }
        }
    }
    assert forall|jj: int| 0 <= jj < j + 1 implies (#[trigger] cv[jj] matches Some(dd) ==> exists|ii: int|
        0 <= ii < es.len() && #[trigger] es[ii].0@ == dd.text@) by {
        if jj == j {
            assert(es[i].0@ == d.text@);
        }
    }
}

#[verifier::spinoff_prover]
proof fn lemma_step_update(
    rules: Seq<(Rewrite, Oid)>,
    cv: Seq<Option<Candidate>>,
    j: int,
    es: Seq<(String, ReplacementSource)>,
    i: int,
    ne: Seq<(String, ReplacementSource)>,
)
    requires
        0 <= j < cv.len(),
        cv.len() == rules.len(),
        rules.len() <= usize::MAX,
        cv[j] matches Some(d) && 0 <= i < es.len() && es[i].0@ == d.text@ && es[i].1.score < d.score
            && ne == es.update(i, (es[i].0, offer_of(rules, d, j))),
        best_by_text(rules, cv, j, es),
    ensures
        best_by_text(rules, cv, j + 1, ne),
{
    let d = cv[j]->0;
    assert forall|m: int| 0 <= m < ne.len() implies best_entry(rules, cv, j + 1, #[trigger] ne[m].0@, ne[m].1) by {
        assert(best_entry(rules, cv, j, es[m].0@, es[m].1));
        if m != i {
            assert(ne[m] == es[m]);
            assert(es[m].0@ != d.text@) by {
                if m < i {
                    assert(key_lt(es[m].0@, es[i].0@));
                } else {
                    assert(key_lt(es[i].0@, es[m].0@));
                }
            }
        } else {
            assert forall|jj: int| 0 <= jj < j + 1 implies offer_bounded(#[trigger] cv[jj], jj, ne[m].0@, ne[m].1) by {
                if jj < j {
                    assert(offer_bounded(cv[jj], jj, es[m].0@, es[m].1));
                }
            }
        }
    }
    assert forall|a: int, b: int| 0 <= a < b < ne.len() implies key_lt(#[trigger] ne[a].0@, #[trigger] ne[b].0@) by {
        assert(key_lt(es[a].0@, es[b].0@));
    }
    assert forall|jj: int| 0 <= jj < j + 1 implies (#[trigger] cv[jj] matches Some(dd) ==> exists|ii: int|
        0 <= ii < ne.len() && #[trigger] ne[ii].0@ == dd.text@) by {
        if jj == j {
            assert(ne[i].0@ == d.text@);
        } else if let Some(dd) = cv[jj] {
            assert(cv[jj] matches Some(dd) ==> exists|ii: int|
                0 <= ii < es.len() && #[trigger] es[ii].0@ == dd.text@);
            let ii = choose|ii: int| 0 <= ii < es.len() && #[trigger] es[ii].0@ == dd.text@;
            if ii == i {
                assert(ne[ii].0 == es[i].0);
            } else {
                assert(ne[ii] == es[ii]);
            }
            assert(ne[ii].0@ == dd.text@);
        }
    }
}

proof fn lemma_insert_sorted(
    es: Seq<(String, ReplacementSource)>,
    i: int,
    e: (String, ReplacementSource),
    ne: Seq<(String, ReplacementSource)>,
)
    requires
        0 <= i <= es.len(),
        ne == es.insert(i, e),
        forall|a: int, b: int| 0 <= a < b < es.len() ==> key_lt(#[trigger] es[a].0@, #[trigger] es[b].0@),
        forall|m: int| 0 <= m < i ==> key_lt(#[trigger] es[m].0@, e.0@),
        forall|m: int| i <= m < es.len() ==> key_lt(e.0@, #[trigger] es[m].0@),
    ensures
        forall|a: int, b: int| 0 <= a < b < ne.len() ==> key_lt(#[trigger] ne[a].0@, #[trigger] ne[b].0@),
{
    assert forall|a: int, b: int| 0 <= a < b < ne.len() implies key_lt(#[trigger] ne[a].0@, #[trigger] ne[b].0@) by {
        if b < i {
            assert(ne[a] == es[a] && ne[b] == es[b]);
        } else if b == i {
            assert(ne[a] == es[a]);
        } else if a == i {
            assert(ne[b] == es[b - 1]);
        } else if a < i {
            assert(ne[a] == es[a] && ne[b] == es[b - 1]);
        } else {
            assert(ne[a] == es[a - 1] && ne[b] == es[b - 1]);
        }
    }
}

#[verifier::spinoff_prover]
proof fn lemma_step_insert(
    rules: Seq<(Rewrite, Oid)>,
    cv: Seq<Option<Candidate>>,
    j: int,
    es: Seq<(String, ReplacementSource)>,
    i: int,
    t: String,
    ne: Seq<(String, ReplacementSource)>,
)
    requires
        0 <= j < cv.len(),
        cv.len() == rules.len(),
        rules.len() <= usize::MAX,
        cv[j] matches Some(d) && 0 <= i <= es.len() && t@ == d.text@ && ne == es.insert(i, (t, offer_of(rules, d, j))),
        forall|m: int| 0 <= m < i ==> key_lt(#[trigger] es[m].0@, t@),
        i < es.len() ==> key_lt(t@, es[i].0@),
        best_by_text(rules, cv, j, es),
    ensures
        best_by_text(rules, cv, j + 1, ne),
{
    let d = cv[j]->0;
    let k = t@;
    assert forall|m: int| i <= m < es.len() implies key_lt(k, #[trigger] es[m].0@) by {
        if m > i {
            assert(key_lt(es[i].0@, es[m].0@));
            lemma_key_lt_trans(k, es[i].0@, es[m].0@);
        }
    }
    assert(ne[i].0@ == k);
    // No earlier candidate offered this text.
    assert forall|jj: int| 0 <= jj < j implies offer_bounded(#[trigger] cv[jj], jj, k, ne[i].1) by {
        if let Some(dd) = cv[jj] {
            if dd.text@ == k {
                assert(cv[jj] matches Some(dd) ==> exists|ii: int|
                    0 <= ii < es.len() && #[trigger] es[ii].0@ == dd.text@);
                let ii = choose|ii: int| 0 <= ii < es.len() && #[trigger] es[ii].0@ == dd.text@;
                if ii < i {
                    assert(key_lt(es[ii].0@, k));
                } else if ii >= i {
                    assert(key_lt(k, es[ii].0@));
                }
            }
        }
    }
    lemma_insert_sorted(es, i, (t, offer_of(rules, d, j)), ne);
    assert forall|m: int| 0 <= m < ne.len() implies best_entry(rules, cv, j + 1, #[trigger] ne[m].0@, ne[m].1) by {
        if m < i {
            assert(ne[m] == es[m]);
            assert(best_entry(rules, cv, j, es[m].0@, es[m].1));
            assert(es[m].0@ != k);
        } else if m > i {
            assert(ne[m] == es[m - 1]);
            assert(best_entry(rules, cv, j, es[m - 1].0@, es[m - 1].1));
            assert(es[m - 1].0@ != k);
        }
    }
    assert forall|jj: int| 0 <= jj < j + 1 implies (#[trigger] cv[jj] matches Some(dd) ==> exists|ii: int|
        0 <= ii < ne.len() && #[trigger] ne[ii].0@ == dd.text@) by {
        if jj == j {
            assert(ne[i].0@ == k);
        } else if let Some(dd) = cv[jj] {
            assert(cv[jj] matches Some(dd) ==> exists|ii: int|
                0 <= ii < es.len() && #[trigger] es[ii].0@ == dd.text@);
            let ii = choose|ii: int| 0 <= ii < es.len() && #[trigger] es[ii].0@ == dd.text@;
            if ii < i {
                assert(ne[ii].0@ == dd.text@);
            } else {
                assert(ne[ii + 1] == es[ii]);
                assert(ne[ii + 1].0@ == dd.text@);
            }
        }
    }
}

/// Gathers the offers into the best offer for each replacement text, ordered by text: for each
/// text, the first offer with the highest score.
pub fn best_by_replacement(rules: &Vec<(Rewrite, Oid)>, cands: Vec<Option<Candidate>>) -> (r: Vec<
    (String, ReplacementSource),
>)
    requires
        cands@.len() == rules@.len(),
    ensures
        best_by_text(rules@, cands@, cands@.len() as int, r@),
{
    let ghost cv = cands@;
    let n_rules = rules.len();
    let mut entries: Vec<(String, ReplacementSource)> = Vec::new();
    let mut j: usize = 0;
    while j < cands.len()
        invariant
            cands@ == cv,
            cv.len() == rules@.len(),
            rules@.len() == n_rules,
            j <= cv.len(),
            best_by_text(rules@, cv, j as int, entries@),
        decreases cv.len() - j,
    {
        if let Some(d) = &cands[j] {
            let ghost old_entries = entries@;
            let mut i: usize = 0;
            while i < entries.len() && str_le(entries[i].0.as_str(), d.text.as_str()) && !str_eq(
                &entries[i].0,
                &d.text,
            )
                invariant
                    entries@ == old_entries,
                    i <= entries@.len(),
                    forall|m: int| 0 <= m < i ==> key_lt(#[trigger] entries@[m].0@, d.text@),
                decreases entries@.len() - i,
            {
                i = i + 1;
            }
            let found = i < entries.len() && str_eq(&entries[i].0, &d.text);
            let src = ReplacementSource { score: d.score, span: d.span, oid: rules[j].1, rule: j };
            assert(src == offer_of(rules@, *d, j as int));
            if found {
                if entries[i].1.score < d.score {
                    let key = entries[i].0.clone();
                    entries.set(i, (key, src));
                    proof {
                        lemma_step_update(rules@, cv, j as int, old_entries, i as int, entries@);
                    }
                } else {
                    proof {
                        lemma_step_keep(rules@, cv, j as int, old_entries, i as int);
                    }
                }
            } else {
                proof {
                    if i < old_entries.len() {
                        lemma_lex_total(old_entries[i as int].0@, d.text@);
                    }
                }
                let t = d.text.clone();
                entries.insert(i, (t, src));
                proof {
                    lemma_step_insert(rules@, cv, j as int, old_entries, i as int, entries@[i as int].0, entries@);
                }
            }
        } else {
            proof {
                lemma_step_none(rules@, cv, j as int, entries@);
            }
        }
        j = j + 1;
    }
    entries
}

/// `cs` is what each rule offers for the highlight.
pub open spec fn offers_ok(rules: Seq<(Rewrite, Oid)>, h: Highlight, cs: Seq<Option<Candidate>>) -> bool {
    cs.len() == rules.len() && forall|k: int|
        0 <= k < rules.len() ==> candidate_ok(#[trigger] rules[k].0, h, cs[k])
}

/// `entries` holds, for each replacement text that the rules offer for the highlight, the best
/// offer, ordered by text.
pub open spec fn applicable_ok(
    rules: Seq<(Rewrite, Oid)>,
    h: Highlight,
    entries: Seq<(String, ReplacementSource)>,
) -> bool {
    exists|cs: Seq<Option<Candidate>>|
        #[trigger] offers_ok(rules, h, cs) && best_by_text(rules, cs, cs.len() as int, entries)
}

/// For each replacement text that the rules offer for the highlight, the best offer (the first
/// with the highest score), ordered by text; fails where some rule applies but its texts cannot be
/// located.
pub fn applicable_rewrites(rules: &Vec<(Rewrite, Oid)>, h: &Highlight) -> (r: Result<
    Vec<(String, ReplacementSource)>,
    SpanError,
>)
    requires
        forall|k: int| 0 <= k < rules@.len() ==> rewrite_wf(#[trigger] rules@[k].0),
        highlight_wf(*h),
    ensures
        match r {
            Ok(entries) => applicable_ok(rules@, *h, entries@),
            Err(_) => exists|k: int|
                0 <= k < rules@.len() && rules_fine_before(rules@, *h, k) && rule_fails(
                    #[trigger] rules@[k].0,
                    *h,
                ),
        },
{
    let cs = match rule_candidates(rules, h) {
        Ok(cs) => cs,
        Err(e) => return Err(e),
    };
    let ghost cv = cs@;
    let entries = best_by_replacement(rules, cs);
    assert(offers_ok(rules@, *h, cv));
    Ok(entries)
}

/// Why a highlight cannot be rewritten.
#[derive(Debug)]
pub enum Reason {
    /// No rule applies.
    NoRewrite,
    /// Several replacement texts share the best score: the score and their best offers.
    Multiple(usize, Vec<(String, ReplacementSource)>),
}

/// The outcome of choosing among the best offers.
#[derive(Debug)]
pub enum Choice {
    /// The one replacement text with the best score, and its best offer.
    Rewrite(String, ReplacementSource),
    /// There is no such replacement text.
    Unrewritable(Reason),
}

/// The highest score among the entries (0 where there are none).
pub open spec fn max_score(e: Seq<(String, ReplacementSource)>) -> int
    decreases e.len(),
{
    if e.len() == 0 {
        0
    } else {
        let m = max_score(e.drop_last());
        if e.last().1.score > m {
            e.last().1.score as int
        } else {
            m
        }
    }
}

/// The entries with the highest score, in order.
pub open spec fn best_entries(e: Seq<(String, ReplacementSource)>) -> Seq<(String, ReplacementSource)> {
    e.filter(|x: (String, ReplacementSource)| x.1.score == max_score(e))
}

/// `c` is the choice among `entries`: none where there are no entries; the one entry with the
/// highest score where it is alone; else the highest score and the entries that have it.
pub open spec fn choice_ok(entries: Seq<(String, ReplacementSource)>, c: Choice) -> bool {
    match c {
        Choice::Unrewritable(Reason::NoRewrite) => entries.len() == 0,
        Choice::Unrewritable(Reason::Multiple(score, kept)) => {
            &&& entries.len() > 0
            &&& score == max_score(entries)
            &&& best_entries(entries).len() > 1
            &&& kept@ == best_entries(entries)
        },
        Choice::Rewrite(text, src) => {
            &&& entries.len() > 0
            &&& best_entries(entries).len() == 1
            &&& best_entries(entries)[0] == (text, src)
        },
    }
}

proof fn lemma_max_score(e: Seq<(String, ReplacementSource)>)
    ensures
        forall|i: int| 0 <= i < e.len() ==> #[trigger] e[i].1.score <= max_score(e),
        e.len() > 0 ==> exists|i: int| 0 <= i < e.len() && #[trigger] e[i].1.score == max_score(e),
        0 <= max_score(e) <= usize::MAX,
    decreases e.len(),
{
    if e.len() > 0 {
        lemma_max_score(e.drop_last());
        let d = e.drop_last();
        assert forall|i: int| 0 <= i < e.len() implies #[trigger] e[i].1.score <= max_score(e) by {
            if i < e.len() - 1 {
                assert(e[i] == d[i]);
            }
        }
        if e.last().1.score <= max_score(d) && d.len() > 0 {
            let i = choose|i: int| 0 <= i < d.len() && #[trigger] d[i].1.score == max_score(d);
            assert(e[i] == d[i]);
        } else {
            assert(e[e.len() - 1].1.score == max_score(e));
        }
    }
}

/// A rewrite is chosen only when it is the one best offer: it is among the offers, and every offer
/// of another replacement text scores strictly less.
pub proof fn lemma_chosen_rewrite_is_best(
    entries: Seq<(String, ReplacementSource)>,
    text: String,
    src: ReplacementSource,
)
    requires
        choice_ok(entries, Choice::Rewrite(text, src)),
    ensures
        entries.contains((text, src)),
        forall|i: int|
            0 <= i < entries.len() && #[trigger] entries[i].0 != text ==> entries[i].1.score
                < src.score,
{
    let pred = |x: (String, ReplacementSource)| x.1.score == max_score(entries);
    lemma_max_score(entries);
    let kept = entries.filter(pred);
    assert(kept == best_entries(entries));
    assert(kept.contains((text, src))) by {
        assert(kept[0] == (text, src));
    }
    entries.lemma_filter_contains_rev(pred, (text, src));
    entries.lemma_filter_pred(pred, 0);
    assert(src.score == max_score(entries));
    assert forall|i: int|
        0 <= i < entries.len() && #[trigger] entries[i].0 != text implies entries[i].1.score
        < src.score by {
        if entries[i].1.score == src.score {
            entries.lemma_filter_contains(pred, i);
            let j = choose|j: int| 0 <= j < kept.len() && kept[j] == entries[i];
            assert(j == 0);
        }
    }
}

/// Chooses among the best offers: the replacement text with the highest score where it is the
/// only one, else why there is none.
pub fn choose_replacement(entries: &Vec<(String, ReplacementSource)>) -> (r: Choice)
    ensures
        choice_ok(entries@, r),
{
    if entries.len() == 0 {
        return Choice::Unrewritable(Reason::NoRewrite);
    }
    let ghost e = entries@;
    let mut best: usize = 0;
    let mut i: usize = 0;
    while i < entries.len()
        invariant
            e == entries@,
            i <= e.len(),
            best == max_score(e.take(i as int)),
        decreases e.len() - i,
    {
        assert(e.take(i + 1).drop_last() =~= e.take(i as int));
        if entries[i].1.score > best {
            best = entries[i].1.score;
        }
        i = i + 1;
    }
    assert(e.take(e.len() as int) =~= e);
    let ghost pred = |x: (String, ReplacementSource)| x.1.score == max_score(e);
    let mut kept: Vec<(String, ReplacementSource)> = Vec::new();
    let mut k: usize = 0;
    proof {
        reveal(Seq::filter);
        assert(e.take(0).filter(pred) =~= Seq::<(String, ReplacementSource)>::empty());
    }
    while k < entries.len()
        invariant
            e == entries@,
            k <= e.len(),
            best == max_score(e),
            pred == (|x: (String, ReplacementSource)| x.1.score == max_score(e)),
            kept@ == e.take(k as int).filter(pred),
        decreases e.len() - k,
    {
        proof {
            reveal(Seq::filter);
            assert(e.take(k + 1).drop_last() =~= e.take(k as int));
            assert(e.take(k + 1).last() == e[k as int]);
        }
        if entries[k].1.score == best {
            let key = entries[k].0.clone();
            kept.push((key, entries[k].1));
        }
        k = k + 1;
    }
    assert(e.take(e.len() as int) =~= e);
    assert(kept@ == best_entries(e));
    proof {
        lemma_max_score(e);
        let w = choose|i: int| 0 <= i < e.len() && #[trigger] e[i].1.score == max_score(e);
        assert(pred(e[w]));
        e.lemma_filter_contains(pred, w);
        assert(e.filter(pred).contains(e[w]));
    }
    if kept.len() == 1 {
        let (text, src) = kept.pop().unwrap();
        assert(best_entries(e)[0] == (text, src));
        Choice::Rewrite(text, src)
    } else {
        Choice::Unrewritable(Reason::Multiple(best, kept))
    }
}

/// What to do with a highlight.
#[derive(Debug)]
pub enum Action {
    /// Leave it for now.
    Skip,
    /// Report it as unrewritable, for this reason.
    Report(Reason),
    /// Replace the span of the source with the text.
    Rewrite(String, ReplacementSource),
}

/// `a` is what a choice means for a highlight: a rewrite is made; an unrewritable highlight is
/// reported where it is primary and skipped where it is not.
pub open spec fn action_ok(c: Choice, is_primary: bool, a: Action) -> bool {
    match (c, a) {
        (Choice::Rewrite(t, s), Action::Rewrite(t2, s2)) => t == t2 && s == s2,
        (Choice::Unrewritable(reason), Action::Report(reason2)) => is_primary && reason == reason2,
        (Choice::Unrewritable(_), Action::Skip) => !is_primary,
        _ => false,
    }
}

/// Decides what to do with a highlight, given the last line of its file that was rewritten in
/// this pass: a highlight that starts at or before that line waits for the next pass; otherwise
/// its best replacement is chosen among the rules' offers. Fails where some rule applies but its
/// texts cannot be located.
pub fn decide_highlight(
    rules: &Vec<(Rewrite, Oid)>,
    h: &Highlight,
    last_rewritten_line: usize,
) -> (r: Result<Action, SpanError>)
    requires
        forall|k: int| 0 <= k < rules@.len() ==> rewrite_wf(#[trigger] rules@[k].0),
        highlight_wf(*h),
    ensures
        h.line_start <= last_rewritten_line ==> r matches Ok(Action::Skip),
        h.line_start > last_rewritten_line ==> match r {
            Ok(a) => exists|entries: Seq<(String, ReplacementSource)>, c: Choice|
                #[trigger] applicable_ok(rules@, *h, entries) && #[trigger] choice_ok(entries, c)
                    && action_ok(c, h.is_primary, a),
            Err(_) => exists|k: int|
                0 <= k < rules@.len() && rules_fine_before(rules@, *h, k) && rule_fails(
                    #[trigger] rules@[k].0,
                    *h,
                ),
        },
{
    if h.line_start <= last_rewritten_line {
        return Ok(Action::Skip);
    }
    let entries = match applicable_rewrites(rules, h) {
        Ok(e) => e,
        Err(e) => return Err(e),
    };
    let ghost ev = entries@;
    let c = choose_replacement(&entries);
    let ghost cv = c;
    let a = match c {
        Choice::Rewrite(t, s) => Action::Rewrite(t, s),
        Choice::Unrewritable(reason) => if h.is_primary {
            Action::Report(reason)
        } else {
            Action::Skip
        },
    };
    assert(applicable_ok(rules@, *h, ev) && choice_ok(ev, cv) && action_ok(cv, h.is_primary, a));
    Ok(a)
}

} // verus!
