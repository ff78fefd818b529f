//! Rewriting a source file: edits given by line and column (lines 1-based, columns 0-based and
//! counted in characters), applied in order with the `rewriter` crate.

use vstd::prelude::*;
use crate::correct::{
    action_ok, applicable_ok, choice_ok, decide_highlight, highlight_wf, rule_fails,
    rules_fine_before, Action, Reason,
};
use crate::highlight::Highlight;
use crate::revs::Oid;
use crate::rewrite::{rewrite_wf, Rewrite};
use crate::span::{Span, SpanError};
use crate::text::{chars_of, copy_string};

verus! {

/// Replace the text of `span` with `replacement`.
#[derive(Debug)]
pub struct Edit {
    pub span: Span,
    pub replacement: String,
}

/// An edit as plain values: start line and column, end line and column, replacement.
pub open spec fn edit_view(e: Edit) -> (usize, usize, usize, usize, Seq<char>) {
    (e.span.start.line, e.span.start.column, e.span.end.line, e.span.end.column, e.replacement@)
}

/// Edits as plain values.
pub open spec fn edits_view(es: Seq<Edit>) -> Seq<(usize, usize, usize, usize, Seq<char>)> {
    es.map_values(|e: Edit| edit_view(e))
}

/// The text that `rewriter::Rewriter` gives after applying `edits`, in order, to `original`.
pub uninterp spec fn rewritten(
    original: Seq<char>,
    edits: Seq<(usize, usize, usize, usize, Seq<char>)>,
) -> Seq<char>;

/// The lines of a text: the pieces between its `\n` characters (an empty text has one, empty).
pub open spec fn lines_of(s: Seq<char>) -> Seq<Seq<char>>
    decreases s.len(),
{
    if s.len() == 0 {
        seq![Seq::<char>::empty()]
    } else {
        let init = lines_of(s.drop_last());
        if s.last() == '\n' {
            init.push(Seq::<char>::empty())
        } else {
            init.update(init.len() - 1, init.last().push(s.last()))
        }
    }
}

/// Position `(line, column)` lies in the text: on one of its lines, at most at that line's end.
pub open spec fn in_text(s: Seq<char>, line: usize, column: usize) -> bool {
    1 <= line <= lines_of(s).len() && column <= lines_of(s)[line - 1].len()
}

/// Position `(l1, c1)` comes at or before `(l2, c2)`.
pub open spec fn pos_le(l1: usize, c1: usize, l2: usize, c2: usize) -> bool {
    l1 < l2 || (l1 == l2 && c1 <= c2)
}

/// Each edit starts at or before its end, and at or after the end of the edit before it.
pub open spec fn edits_ordered(es: Seq<(usize, usize, usize, usize, Seq<char>)>) -> bool {
    &&& forall|i: int| 0 <= i < es.len() ==> pos_le(#[trigger] es[i].0, es[i].1, es[i].2, es[i].3)
    &&& forall|i: int|
        0 <= i < es.len() - 1 ==> pos_le(#[trigger] es[i].2, es[i].3, es[i + 1].0, es[i + 1].1)
}

/// Every position of the edits lies in the text.
pub open spec fn edits_in_text(s: Seq<char>, es: Seq<(usize, usize, usize, usize, Seq<char>)>) -> bool {
    forall|i: int|
        0 <= i < es.len() ==> in_text(s, #[trigger] es[i].0, es[i].1) && in_text(s, es[i].2, es[i].3)
}

/// The edits can be applied to the text: they are in order and lie in it.
pub open spec fn edits_fit(s: Seq<char>, es: Seq<(usize, usize, usize, usize, Seq<char>)>) -> bool {
    edits_ordered(es) && edits_in_text(s, es)
}

/// Adding an edit that starts after the last one ends, and lies in the text, keeps the edits
/// applicable.
pub proof fn lemma_fit_push(
    s: Seq<char>,
    es: Seq<(usize, usize, usize, usize, Seq<char>)>,
    e: (usize, usize, usize, usize, Seq<char>),
)
    requires
        edits_fit(s, es),
        pos_le(e.0, e.1, e.2, e.3),
        in_text(s, e.0, e.1),
        in_text(s, e.2, e.3),
        es.len() > 0 ==> pos_le(es.last().2, es.last().3, e.0, e.1),
    ensures
        edits_fit(s, es.push(e)),
{
    let ns = es.push(e);
    assert forall|i: int| 0 <= i < ns.len() implies pos_le(#[trigger] ns[i].0, ns[i].1, ns[i].2, ns[i].3) by {
        if i < es.len() {
            assert(ns[i] == es[i]);
        }
    }
    assert forall|i: int| 0 <= i < ns.len() - 1 implies pos_le(#[trigger] ns[i].2, ns[i].3, ns[i + 1].0, ns[i + 1].1) by {
        if i < es.len() - 1 {
            assert(ns[i] == es[i] && ns[i + 1] == es[i + 1]);
        } else {
            assert(ns[i] == es.last());
        }
    }
    assert forall|i: int| 0 <= i < ns.len() implies in_text(s, #[trigger] ns[i].0, ns[i].1) && in_text(s, ns[i].2, ns[i].3) by {
        if i < es.len() {
            assert(ns[i] == es[i]);
        }
    }
}

proof fn lemma_lines_nonempty(s: Seq<char>)
    ensures
        lines_of(s).len() >= 1,
    decreases s.len(),
{
    if s.len() > 0 {
        lemma_lines_nonempty(s.drop_last());
    }
}

/// The length, in characters, of each line of a text (see [`lines_of`]).
pub fn line_lengths(text: &str) -> (r: Vec<usize>)
    ensures
        r@.len() == lines_of(text@).len(),
        forall|i: int| 0 <= i < r@.len() ==> #[trigger] r@[i] == lines_of(text@)[i].len(),
{
    let cs = chars_of(text);
    let mut done: Vec<usize> = Vec::new();
    let mut cur: usize = 0;
    let mut i: usize = 0;
    assert(cs@.take(0) =~= Seq::<char>::empty());
    while i < cs.len()
        invariant
            i <= cs@.len(),
            cs@ == text@,
            lines_of(cs@.take(i as int)).len() == done@.len() + 1,
            forall|k: int| 0 <= k < done@.len() ==> #[trigger] done@[k] == lines_of(cs@.take(i as int))[k].len(),
            cur == lines_of(cs@.take(i as int)).last().len(),
            cur <= i,
        decreases cs@.len() - i,
    {
        let ghost t = cs@.take(i as int);
        let ghost t1 = cs@.take(i + 1);
        assert(t1.drop_last() =~= t);
        assert(t1.last() == cs@[i as int]);
        proof {
            lemma_lines_nonempty(t);
        }
        let ghost ls = lines_of(t);
        if cs[i] == '\n' {
            done.push(cur);
            cur = 0;
            assert(lines_of(t1) == ls.push(Seq::<char>::empty()));
            assert forall|k: int| 0 <= k < done@.len() implies #[trigger] done@[k] == lines_of(t1)[k].len() by {
                if k < done@.len() - 1 {
                    assert(lines_of(t1)[k] == ls[k]);
                } else {
                    assert(lines_of(t1)[k] == ls.last());
                }
            }
        } else {
            cur = cur + 1;
            assert(lines_of(t1) == ls.update(ls.len() - 1, ls.last().push(cs@[i as int])));
            assert forall|k: int| 0 <= k < done@.len() implies #[trigger] done@[k] == lines_of(t1)[k].len() by {
                assert(lines_of(t1)[k] == ls[k]);
            }
        }
        i = i + 1;
    }
    assert(cs@.take(cs@.len() as int) =~= cs@);
    let ghost ls = lines_of(cs@);
    done.push(cur);
    assert forall|k: int| 0 <= k < done@.len() implies #[trigger] done@[k] == ls[k].len() by {
        if k == done@.len() - 1 {
            assert(ls[k] == ls.last());
        }
    }
    done
}

/// Whether `(line, column)` lies in a text whose line lengths are `lens`.
pub fn position_in_text(lens: &Vec<usize>, line: usize, column: usize, Ghost(s): Ghost<Seq<char>>) -> (r: bool)
    requires
        lens@.len() == lines_of(s).len(),
        forall|i: int| 0 <= i < lens@.len() ==> #[trigger] lens@[i] == lines_of(s)[i].len(),
    ensures
        r == in_text(s, line, column),
{
    1 <= line && line <= lens.len() && column <= lens[line - 1]
}

/// `rewriter::Rewriter`: rewrites `original` with each edit in order (`Rewriter::new`,
/// `Rewriter::rewrite`, `Rewriter::contents`). The rewriter panics on edits out of order or
/// outside the text, which the `requires` leaves out; its result is named by [`rewritten`].
#[verifier::external_body]
pub(crate) fn apply_edits(original: &str, edits: &Vec<Edit>) -> (r: String)
    requires
        edits_fit(original@, edits_view(edits@)),
    ensures
        r@ == rewritten(original@, edits_view(edits@)),
{
    let mut rewriter = rewriter::Rewriter::new(original);
    for edit in edits {
        let start = rewriter::LineColumn { line: edit.span.start.line, column: edit.span.start.column };
        let end = rewriter::LineColumn { line: edit.span.end.line, column: edit.span.end.column };
        let _: String = rewriter.rewrite(&rewriter::Span::new(start, end), &edit.replacement);
    }
    rewriter.contents()
}


// ---------------------------------------------------------------------------------------------
// One pass of corrections over the highlights
// ---------------------------------------------------------------------------------------------

/// The edit that a rewrite action makes.
pub open spec fn action_edit(t: Seq<char>, span: Span) -> (usize, usize, usize, usize, Seq<char>) {
    (span.start.line, span.start.column, span.end.line, span.end.column, t)
}

/// The edits made so far to the file `name`, in order, by the steps of a pass (each step: the
/// file of a highlight, and what was done with the highlight).
pub open spec fn step_edits(steps: Seq<(Seq<char>, Action)>, name: Seq<char>) -> Seq<
    (usize, usize, usize, usize, Seq<char>),
>
    decreases steps.len(),
{
    if steps.len() == 0 {
        Seq::empty()
    } else {
        let prev = step_edits(steps.drop_last(), name);
        match steps.last().1 {
            Action::Rewrite(t, src) => if steps.last().0 == name {
                prev.push(action_edit(t@, src.span))
            } else {
                prev
            },
            _ => prev,
        }
    }
}

/// The last line of the file `name` that the steps rewrote (0 before any rewrite).
pub open spec fn last_rewritten_line(steps: Seq<(Seq<char>, Action)>, name: Seq<char>) -> usize {
    let es = step_edits(steps, name);
    if es.len() == 0 {
        0
    } else {
        es.last().2
    }
}

/// The highlights reported as unrewritable by the steps, in order: their positions and reasons.
pub open spec fn step_reports(steps: Seq<(Seq<char>, Action)>) -> Seq<(int, Reason)>
    decreases steps.len(),
{
    if steps.len() == 0 {
        Seq::empty()
    } else {
        let prev = step_reports(steps.drop_last());
        match steps.last().1 {
            Action::Report(reason) => prev.push((steps.len() - 1, reason)),
            _ => prev,
        }
    }
}

/// `a` is what [`decide_highlight`] may decide for `h`, given the last line of its file that was
/// rewritten.
pub open spec fn decided(rules: Seq<(Rewrite, Oid)>, h: Highlight, last: usize, a: Action) -> bool {
    &&& h.line_start <= last ==> a is Skip
    &&& h.line_start > last ==> exists|entries: Seq<(String, crate::correct::ReplacementSource)>, c: crate::correct::Choice|
        #[trigger] applicable_ok(rules, h, entries) && #[trigger] choice_ok(entries, c) && action_ok(
            c,
            h.is_primary,
            a,
        )
}

/// The steps are those of the first highlights, each decided in turn.
pub open spec fn steps_ok(
    rules: Seq<(Rewrite, Oid)>,
    hs: Seq<Highlight>,
    steps: Seq<(Seq<char>, Action)>,
) -> bool {
    &&& steps.len() <= hs.len()
    &&& forall|i: int|
        0 <= i < steps.len() ==> (#[trigger] steps[i]).0 == hs[i].file_name@ && decided(
            rules,
            hs[i],
            last_rewritten_line(steps.take(i), hs[i].file_name@),
            steps[i].1,
        )
}

/// The edits of the file numbered `f` among the edits made, in order.
pub open spec fn file_edits(flat: Seq<(usize, Edit)>, f: usize) -> Seq<
    (usize, usize, usize, usize, Seq<char>),
>
    decreases flat.len(),
{
    if flat.len() == 0 {
        Seq::empty()
    } else {
        let prev = file_edits(flat.drop_last(), f);
        if flat.last().0 == f {
            prev.push(edit_view(flat.last().1))
        } else {
            prev
        }
    }
}

/// What a pass gives: each source file's text after it (in the order of the sources), and the
/// highlights reported as unrewritable (their positions and reasons, in order).
#[derive(Debug)]
pub struct PassOutcome {
    pub texts: Vec<String>,
    pub unrewritable: Vec<(usize, Reason)>,
}

/// Why a pass stopped.
#[derive(Debug)]
pub enum PassError {
    /// A rule applies to the highlight at this position but its texts cannot be located.
    Span(usize, SpanError),
    /// The rewrite chosen for the highlight at this position does not lie in its file's text, or
    /// does not come after the file's earlier rewrites (the rewriter would refuse it).
    BadEdit(usize),
}

/// The sources' names are distinct.
pub open spec fn names_distinct(srcs: Seq<(String, String)>) -> bool {
    forall|f: int, g: int| 0 <= f < g < srcs.len() ==> #[trigger] srcs[f].0@ != #[trigger] srcs[g].0@
}

/// Some source is named `name`.
pub open spec fn has_name(srcs: Seq<(String, String)>, name: Seq<char>) -> bool {
    exists|f: int| 0 <= f < srcs.len() && #[trigger] srcs[f].0@ == name
}

fn same_name(a: &String, b: &String) -> (r: bool)
    ensures
        r == (a@ == b@),
{
    *a == *b
}

/// Where the last of some edits ends.
pub open spec fn last_end(es: Seq<(usize, usize, usize, usize, Seq<char>)>) -> Option<(usize, usize)> {
    if es.len() == 0 {
        None
    } else {
        Some((es.last().2, es.last().3))
    }
}

proof fn lemma_fit_push_needs(
    s: Seq<char>,
    es: Seq<(usize, usize, usize, usize, Seq<char>)>,
    e: (usize, usize, usize, usize, Seq<char>),
)
    requires
        edits_fit(s, es.push(e)),
    ensures
        pos_le(e.0, e.1, e.2, e.3),
        in_text(s, e.0, e.1),
        in_text(s, e.2, e.3),
        es.len() > 0 ==> pos_le(es.last().2, es.last().3, e.0, e.1),
{
    let ns = es.push(e);
    assert(ns[es.len() as int] == e);
    assert(pos_le(ns[es.len() as int].0, ns[es.len() as int].1, ns[es.len() as int].2, ns[es.len() as int].3));
    assert(in_text(s, ns[es.len() as int].0, ns[es.len() as int].1));
    if es.len() > 0 {
        let j = es.len() - 1;
        assert(ns[j] == es.last());
        assert(pos_le(ns[j].2, ns[j].3, ns[j + 1].0, ns[j + 1].1));
    }
}

/// Extending the steps with the decision for the next highlight keeps them decided in turn.
proof fn lemma_steps_push(
    rules: Seq<(Rewrite, Oid)>,
    hs: Seq<Highlight>,
    steps: Seq<(Seq<char>, Action)>,
    a: Action,
)
    requires
        steps_ok(rules, hs, steps),
        steps.len() < hs.len(),
        decided(rules, hs[steps.len() as int], last_rewritten_line(steps, hs[steps.len() as int].file_name@), a),
    ensures
        steps_ok(rules, hs, steps.push((hs[steps.len() as int].file_name@, a))),
{
    let i = steps.len() as int;
    let s2 = steps.push((hs[i].file_name@, a));
    assert(s2.take(i) =~= steps);
    assert forall|k: int| 0 <= k < s2.len() implies (#[trigger] s2[k]).0 == hs[k].file_name@ && decided(
        rules,
        hs[k],
        last_rewritten_line(s2.take(k), hs[k].file_name@),
        s2[k].1,
    ) by {
        if k < i {
            assert(s2.take(k) =~= steps.take(k));
            assert(s2[k] == steps[k]);
        }
    }
}

/// One pass of corrections over the highlights (in order), as Dylint's upgrade makes it: for
/// each highlight, [`decide_highlight`] is asked, given the last line of the highlight's file
/// rewritten so far in this pass; a rewrite becomes an edit of that file, a report is listed.
/// Then each source file's text is rewritten with its edits, in order. The pass stops where a
/// rule's texts cannot be located, or where a rewrite does not fit its file's text.
#[verifier::rlimit(100)]
#[verifier::spinoff_prover]
pub fn correct_pass(
    rules: &Vec<(Rewrite, Oid)>,
    highlights: &Vec<Highlight>,
    sources: &Vec<(String, String)>,
) -> (r: Result<PassOutcome, PassError>)
    requires
        forall|k: int| 0 <= k < rules@.len() ==> rewrite_wf(#[trigger] rules@[k].0),
        forall|i: int| 0 <= i < highlights@.len() ==> highlight_wf(#[trigger] highlights@[i]),
        names_distinct(sources@),
        forall|i: int| 0 <= i < highlights@.len() ==> has_name(sources@, (#[trigger] highlights@[i]).file_name@),
    ensures
        match r {
            Ok(out) => exists|steps: Seq<(Seq<char>, Action)>|
                #![trigger steps_ok(rules@, highlights@, steps)]
                steps.len() == highlights@.len() && steps_ok(rules@, highlights@, steps)
                    && out.texts@.len() == sources@.len() && (forall|f: int|
                    0 <= f < sources@.len() ==> #[trigger] out.texts@[f]@ == rewritten(
                        sources@[f].1@,
                        step_edits(steps, sources@[f].0@),
                    )) && out.unrewritable@.map_values(|p: (usize, Reason)| (p.0 as int, p.1))
                    == step_reports(steps),
            Err(PassError::Span(i, _)) => exists|steps: Seq<(Seq<char>, Action)>|
                #![trigger steps_ok(rules@, highlights@, steps)]
                steps.len() == i && i < highlights@.len() && steps_ok(rules@, highlights@, steps)
                    && highlights@[i as int].line_start > last_rewritten_line(
                    steps,
                    highlights@[i as int].file_name@,
                ) && exists|k: int|
                    0 <= k < rules@.len() && rules_fine_before(rules@, highlights@[i as int], k)
                        && rule_fails(#[trigger] rules@[k].0, highlights@[i as int]),
            Err(PassError::BadEdit(i)) => exists|steps: Seq<(Seq<char>, Action)>|
                #![trigger steps_ok(rules@, highlights@, steps)]
                steps.len() == i + 1 && i < highlights@.len() && steps_ok(rules@, highlights@, steps)
                    && steps[i as int].1 is Rewrite && exists|f: int|
                    0 <= f < sources@.len() && #[trigger] sources@[f].0@ == highlights@[i as int].file_name@
                        && !edits_fit(sources@[f].1@, step_edits(steps, sources@[f].0@)),
        },
{
    let n = sources.len();
    let mut lens: Vec<Vec<usize>> = Vec::new();
    let mut ends: Vec<Option<(usize, usize)>> = Vec::new();
    let mut f0: usize = 0;
    while f0 < n
        invariant
            f0 <= n,
            n == sources@.len(),
            lens@.len() == f0,
            ends@.len() == f0,
            forall|g: int| 0 <= g < f0 ==> (#[trigger] lens@[g])@.len() == lines_of(sources@[g].1@).len(),
            forall|g: int, k: int|
                0 <= g < f0 && 0 <= k < lens@[g]@.len() ==> #[trigger] lens@[g]@[k] == lines_of(
                    sources@[g].1@,
                )[k].len(),
            forall|g: int| 0 <= g < f0 ==> (#[trigger] ends@[g]) is None,
            forall|j: int| 0 <= j < highlights@.len() ==> has_name(sources@, (#[trigger] highlights@[j]).file_name@),
        decreases n - f0,
    {
        lens.push(line_lengths(sources[f0].1.as_str()));
        ends.push(None);
        f0 = f0 + 1;
    }
    let mut flat: Vec<(usize, Edit)> = Vec::new();
    let mut unrewritable: Vec<(usize, Reason)> = Vec::new();
    let ghost mut steps: Seq<(Seq<char>, Action)> = Seq::empty();
    let ghost srcs = sources@;
    let ghost hs = highlights@;
    proof {
        assert forall|g: usize| g < n implies #[trigger] file_edits(flat@, g) == step_edits(steps, srcs[g as int].0@) by {}
        assert(unrewritable@.map_values(|p: (usize, Reason)| (p.0 as int, p.1)) =~= step_reports(steps));
    }
    let mut i: usize = 0;
    while i < highlights.len()
        invariant
            i <= hs.len(),
            hs == highlights@,
            srcs == sources@,
            n == srcs.len(),
            forall|k: int| 0 <= k < rules@.len() ==> rewrite_wf(#[trigger] rules@[k].0),
            forall|j: int| 0 <= j < hs.len() ==> highlight_wf(#[trigger] hs[j]),
            names_distinct(srcs),
            forall|j: int| 0 <= j < highlights@.len() ==> has_name(sources@, (#[trigger] highlights@[j]).file_name@),
            lens@.len() == n,
            forall|g: int| 0 <= g < n ==> (#[trigger] lens@[g])@.len() == lines_of(srcs[g].1@).len(),
            forall|g: int, k: int|
                0 <= g < n && 0 <= k < lens@[g]@.len() ==> #[trigger] lens@[g]@[k] == lines_of(srcs[g].1@)[k].len(),
            ends@.len() == n,
            steps.len() == i,
            steps_ok(rules@, hs, steps),
            forall|g: int| 0 <= g < n ==> #[trigger] ends@[g] == last_end(step_edits(steps, srcs[g].0@)),
            forall|g: usize| g < n ==> #[trigger] file_edits(flat@, g) == step_edits(steps, srcs[g as int].0@),
            forall|g: int| 0 <= g < n ==> #[trigger] edits_fit(srcs[g].1@, step_edits(steps, srcs[g].0@)),
            unrewritable@.map_values(|p: (usize, Reason)| (p.0 as int, p.1)) == step_reports(steps),
        decreases hs.len() - i,
    {
        let h = &highlights[i];
        let ghost name = h.file_name@;
        let mut f: usize = 0;
        while f < n && !same_name(&sources[f].0, &h.file_name)
            invariant
                f <= n,
                n == srcs.len(),
                srcs == sources@,
                name == h.file_name@,
                forall|g: int| 0 <= g < f ==> srcs[g].0@ != name,
            decreases n - f,
        {
            f = f + 1;
        }
        proof {
            assert(has_name(sources@, highlights@[i as int].file_name@));
            if f == n {
                let g = choose|g: int| 0 <= g < sources@.len() && #[trigger] sources@[g].0@ == highlights@[i as int].file_name@;
                assert(srcs[g].0@ != name);
            }
        }
        assert(srcs[f as int].0@ == name);
        let ghost es = step_edits(steps, name);
        assert(ends@[f as int] == last_end(es));
        let last: usize = match ends[f] {
            Some(p) => p.0,
            None => 0,
        };
        assert(last == last_rewritten_line(steps, name));
        let a = match decide_highlight(rules, h, last) {
            Err(e) => {
                return Err(PassError::Span(i, e));
            },
            Ok(a) => a,
        };
        let ghost ga = a;
        let ghost steps2 = steps.push((name, ga));
        proof {
            lemma_steps_push(rules@, hs, steps, ga);
            assert(steps2.drop_last() =~= steps);
            assert forall|g: int| 0 <= g < n && g != f implies step_edits(steps2, #[trigger] srcs[g].0@) == step_edits(steps, srcs[g].0@) by {
                if f < g {
                    assert(srcs[f as int].0@ != srcs[g].0@);
                } else {
                    assert(srcs[g].0@ != srcs[f as int].0@);
                }
            }
        }
        match a {
            Action::Rewrite(t, src) => {
                let sp = src.span;
                let ghost e = action_edit(t@, sp);
                assert(step_edits(steps2, name) == es.push(e));
                let lf = &lens[f];
                let ordered = sp.start.line < sp.end.line || (sp.start.line == sp.end.line
                    && sp.start.column <= sp.end.column);
                let after = match ends[f] {
                    Some(p) => p.0 < sp.start.line || (p.0 == sp.start.line && p.1 <= sp.start.column),
                    None => true,
                };
                let fits = ordered && after && position_in_text(
                    lf,
                    sp.start.line,
                    sp.start.column,
                    Ghost(srcs[f as int].1@),
                ) && position_in_text(lf, sp.end.line, sp.end.column, Ghost(srcs[f as int].1@));
                if !fits {
                    proof {
                        if edits_fit(srcs[f as int].1@, es.push(e)) {
                            lemma_fit_push_needs(srcs[f as int].1@, es, e);
                        }
                        assert(steps2[i as int].1 == ga);
                    }
                    return Err(PassError::BadEdit(i));
                }
                proof {
                    lemma_fit_push(srcs[f as int].1@, es, e);
                }
                let ghost flat0 = flat@;
                flat.push((f, Edit { span: sp, replacement: t }));
                ends.set(f, Some((sp.end.line, sp.end.column)));
                proof {
                    assert(flat@.drop_last() =~= flat0);
                    assert(flat@.last() == (f, Edit { span: sp, replacement: t }));
                    assert forall|g: usize| g < n implies #[trigger] file_edits(flat@, g) == step_edits(steps2, srcs[g as int].0@) by {
                        if g != f {
                            assert(file_edits(flat@, g) == file_edits(flat0, g));
                            assert(step_edits(steps2, srcs[g as int].0@) == step_edits(steps, srcs[g as int].0@));
                        } else {
                            assert(file_edits(flat0, f) == step_edits(steps, srcs[f as int].0@));
                            assert(file_edits(flat@, f) == file_edits(flat0, f).push(edit_view(flat@.last().1)));
                        }
                    }
                    assert(step_reports(steps2) == step_reports(steps));
                }
            },
            Action::Report(reason) => {
                let ghost u0 = unrewritable@;
                unrewritable.push((i, reason));
                proof {
                    assert(step_edits(steps2, name) == es);
                    assert(unrewritable@.map_values(|p: (usize, Reason)| (p.0 as int, p.1)) =~= u0.map_values(|p: (usize, Reason)| (p.0 as int, p.1)).push((i as int, ga->Report_0)));
                }
            },
            Action::Skip => {
                proof {
                    assert(step_edits(steps2, name) == es);
                    assert(step_reports(steps2) == step_reports(steps));
                }
            },
        }
        proof {
            steps = steps2;
        }
        i = i + 1;
    }
    let mut texts: Vec<String> = Vec::new();
    let mut f: usize = 0;
    while f < n
        invariant
            f <= n,
            n == srcs.len(),
            srcs == sources@,
            texts@.len() == f,
            forall|g: usize| g < n ==> #[trigger] file_edits(flat@, g) == step_edits(steps, srcs[g as int].0@),
            forall|g: int| 0 <= g < n ==> #[trigger] edits_fit(srcs[g].1@, step_edits(steps, srcs[g].0@)),
            forall|g: int| 0 <= g < f ==> #[trigger] texts@[g]@ == rewritten(srcs[g].1@, step_edits(steps, srcs[g].0@)),
        decreases n - f,
    {
        let mut list: Vec<Edit> = Vec::new();
        let mut k: usize = 0;
        assert(flat@.take(0) =~= Seq::<(usize, Edit)>::empty());
        assert(edits_view(list@) =~= Seq::<(usize, usize, usize, usize, Seq<char>)>::empty());
        while k < flat.len()
            invariant
                k <= flat@.len(),
                f < n,
                n == srcs.len(),
                srcs == sources@,
                texts@.len() == f,
                forall|g: usize| g < n ==> #[trigger] file_edits(flat@, g) == step_edits(steps, srcs[g as int].0@),
                forall|g: int| 0 <= g < n ==> #[trigger] edits_fit(srcs[g].1@, step_edits(steps, srcs[g].0@)),
                forall|g: int| 0 <= g < f ==> #[trigger] texts@[g]@ == rewritten(srcs[g].1@, step_edits(steps, srcs[g].0@)),
                edits_view(list@) == file_edits(flat@.take(k as int), f),
            decreases flat@.len() - k,
        {
            let ghost l0 = edits_view(list@);
            assert(flat@.take(k + 1).drop_last() =~= flat@.take(k as int));
            assert(flat@.take(k + 1).last() == flat@[k as int]);
            if flat[k].0 == f {
                let e = Edit { span: flat[k].1.span, replacement: copy_string(&flat[k].1.replacement) };
                assert(edit_view(e) == edit_view(flat@[k as int].1));
                list.push(e);
                assert(edits_view(list@) =~= l0.push(edit_view(e)));
            }
            k = k + 1;
        }
        assert(flat@.take(flat@.len() as int) =~= flat@);
        assert(file_edits(flat@, f) == step_edits(steps, srcs[f as int].0@));
        assert(edits_fit(srcs[f as int].1@, step_edits(steps, srcs[f as int].0@)));
        let text = apply_edits(sources[f].1.as_str(), &list);
        texts.push(text);
        f = f + 1;
    }
    let out = PassOutcome { texts, unrewritable };
    assert(steps_ok(rules@, highlights@, steps));
    Ok(out)
}
} // verus!
