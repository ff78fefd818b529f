use dylint::correct::{
    applicable_rewrites, best_by_replacement, choose_replacement, decide_highlight, rule_candidates,
    Action, Candidate, Choice, Reason, ReplacementSource,
};
use dylint::highlight::{highlights_from_messages, Diagnostic, DiagnosticLevel, DiagnosticSpan, Highlight, Message};
use dylint::edits::{correct_pass, PassError};
use dylint::revs::Oid;
use dylint::rewrite::{
    add_rule, classify_hunk, hunk_is_refactor, hunk_rule, subslice_position, Hunk, HunkRule,
    HunkUse, Rewrite,
};
use dylint::span::{span_and_text_of_tokens, LineColumn, Span};
use dylint::tokenization::{tokenize_fragment, tokenize_lines};

fn strings(v: &[&str]) -> Vec<String> {
    v.iter().map(|s| (*s).to_owned()).collect()
}

fn oid(n: u8) -> Oid {
    Oid { bytes: [n; 20] }
}

fn span(l1: usize, c1: usize, l2: usize, c2: usize) -> Span {
    Span { start: LineColumn { line: l1, column: c1 }, end: LineColumn { line: l2, column: c2 } }
}

/// A rule replacing one identifier by another.
fn rule(old: &str, new: &str) -> Rewrite {
    Rewrite {
        old_lines: strings(&[old]),
        new_lines: strings(&[new]),
        old_tokens: strings(&[old]),
        new_tokens: strings(&[new]),
        common_prefix_len: 0,
        common_suffix_len: 0,
    }
}

/// A highlight of one line holding one identifier.
fn highlight(word: &str, line: usize, is_primary: bool) -> Highlight {
    Highlight {
        message: "deprecated".to_owned(),
        file_name: "src/lib.rs".to_owned(),
        line_start: line,
        line_end: line,
        lines: strings(&[word]),
        tokens: strings(&[word]),
        highlight_start: 0,
        highlight_end: 1,
        is_primary,
    }
}

#[test]
fn fragments_tokenize_without_white_space() {
    assert!(tokenize_fragment("").unwrap().is_empty());
    assert!(tokenize_fragment("   ").unwrap().is_empty());
    assert_eq!(tokenize_fragment("foo").unwrap(), strings(&["foo"]));
    let tokens = tokenize_fragment("let x = 1;").unwrap();
    assert!(!tokens.is_empty());
    for t in &tokens {
        assert!(!t.is_empty());
        assert!(!t.starts_with(char::is_whitespace));
    }
    let joined: String = tokens.concat().chars().filter(|c| !c.is_whitespace()).collect();
    assert_eq!(joined, "letx=1;");
}

#[test]
fn lines_tokenize_in_order() {
    assert_eq!(tokenize_lines(&strings(&["  foo  ", "", "bar"])).unwrap(), strings(&["foo", "bar"]));
    assert!(tokenize_lines(&[]).unwrap().is_empty());
}

#[test]
fn span_of_identifiers() {
    let lines = strings(&["foo", "bar"]);
    let (sp, text) = span_and_text_of_tokens(7, &lines, 0, 2).unwrap();
    assert_eq!(sp, span(7, 0, 8, 3));
    assert_eq!(text, "foo\nbar");
    let (sp, text) = span_and_text_of_tokens(7, &lines, 1, 2).unwrap();
    assert_eq!(sp, span(8, 0, 8, 3));
    assert_eq!(text, "bar");
}

#[test]
fn span_skips_indentation() {
    let lines = strings(&["    foo"]);
    let (sp, text) = span_and_text_of_tokens(3, &lines, 0, 1).unwrap();
    assert_eq!(sp, span(3, 4, 3, 7));
    assert_eq!(text, "foo");
}

#[test]
fn empty_range_has_the_default_span() {
    let (sp, text) = span_and_text_of_tokens(5, &strings(&["foo"]), 1, 1).unwrap();
    assert_eq!(sp, span(0, 0, 0, 0));
    assert!(text.is_empty());
}

#[test]
fn tokens_past_the_lines_are_not_found() {
    assert!(span_and_text_of_tokens(1, &strings(&["foo"]), 0, 2).is_err());
}

#[test]
fn rules_from_identifiers() {
    let rw = Rewrite::try_new(strings(&["foo"]), strings(&["bar"])).unwrap().unwrap();
    assert_eq!(rw.old_tokens, strings(&["foo"]));
    assert_eq!(rw.new_tokens, strings(&["bar"]));
    assert_eq!((rw.common_prefix_len, rw.common_suffix_len), (0, 0));
    // Only an insertion: no rule.
    assert!(Rewrite::try_new(strings(&["foo"]), strings(&["foo", "bar"])).unwrap().is_none());
}

#[test]
fn applicability_scores_the_replaced_tokens() {
    let rw = rule("foo", "bar");
    assert_eq!(rw.applicability(&highlight("foo", 3, true)), Some((1, 0)));
    assert_eq!(rw.applicability(&highlight("baz", 3, true)), None);
}

#[test]
fn subslices() {
    let xs = strings(&["a", "b", "a", "b", "c"]);
    assert_eq!(subslice_position(&xs, &strings(&["a", "b"])), Some(0));
    assert_eq!(subslice_position(&xs, &strings(&["b", "c"])), Some(3));
    assert_eq!(subslice_position(&xs, &strings(&["c", "a"])), None);
}

#[test]
fn hunks_are_classified() {
    assert!(hunk_is_refactor(3, 3));
    assert!(!hunk_is_refactor(3, 2));
    assert_eq!(classify_hunk(1, 1, 3), HunkUse::Malformed);
    assert_eq!(classify_hunk(0, 2, 2), HunkUse::Insertion);
    assert_eq!(classify_hunk(4, 3, 7), HunkUse::Refactor);
    assert_eq!(classify_hunk(1, 1, 2), HunkUse::Candidate);
}

#[test]
fn hunk_rules() {
    match hunk_rule(Hunk { old_lines: 2, new_lines: 1, lines: strings(&["a"]) }).unwrap() {
        HunkRule::Malformed(w) => {
            assert_eq!(w, "Malformed hunk: old lines (2) + new lines (1) != line count (1)")
        }
        other => panic!("unexpected: {other:?}"),
    }
    assert!(matches!(
        hunk_rule(Hunk { old_lines: 0, new_lines: 1, lines: strings(&["a"]) }).unwrap(),
        HunkRule::Insertion
    ));
    match hunk_rule(Hunk { old_lines: 1, new_lines: 1, lines: strings(&["foo", "bar"]) }).unwrap() {
        HunkRule::Rule(Some(rw)) => {
            assert_eq!(rw.old_lines, strings(&["foo"]));
            assert_eq!(rw.new_lines, strings(&["bar"]));
        }
        other => panic!("unexpected: {other:?}"),
    }
}

#[test]
fn the_first_commit_of_a_rule_is_kept() {
    let mut rules = Vec::new();
    add_rule(&mut rules, rule("foo", "bar"), oid(1));
    add_rule(&mut rules, rule("foo", "bar"), oid(2));
    add_rule(&mut rules, rule("foo", "baz"), oid(3));
    assert_eq!(rules.len(), 2);
    assert_eq!(rules[0].1.bytes, [1; 20]);
    assert_eq!(rules[1].1.bytes, [3; 20]);
}

fn source(score: usize, rule: usize) -> ReplacementSource {
    ReplacementSource { score, span: span(1, 0, 1, 3), oid: oid(rule as u8), rule }
}

#[test]
fn best_offer_per_text_ordered_by_text() {
    let rules = vec![
        (rule("a", "x"), oid(0)),
        (rule("a", "y"), oid(1)),
        (rule("a", "x"), oid(2)),
        (rule("a", "w"), oid(3)),
    ];
    let cand = |score: usize, text: &str| Some(Candidate { score, offset: 0, text: text.to_owned(), span: span(1, 0, 1, 1) });
    let cands = vec![cand(1, "x"), cand(2, "y"), cand(3, "x"), None];
    let entries = best_by_replacement(&rules, cands);
    assert_eq!(entries.len(), 2);
    assert_eq!(entries[0].0, "x");
    assert_eq!((entries[0].1.score, entries[0].1.rule), (3, 2));
    assert_eq!(entries[0].1.oid.bytes, [2; 20]);
    assert_eq!(entries[1].0, "y");
    assert_eq!((entries[1].1.score, entries[1].1.rule), (2, 1));
}

#[test]
fn ties_keep_the_first_offer() {
    let rules = vec![(rule("a", "x"), oid(0)), (rule("a", "x"), oid(1))];
    let cand = |score: usize| Some(Candidate { score, offset: 0, text: "x".to_owned(), span: span(1, 0, 1, 1) });
    let entries = best_by_replacement(&rules, vec![cand(2), cand(2)]);
    assert_eq!(entries.len(), 1);
    assert_eq!(entries[0].1.rule, 0);
}

#[test]
fn choices() {
    assert!(matches!(choose_replacement(&vec![]), Choice::Unrewritable(Reason::NoRewrite)));
    let entries = vec![("a".to_owned(), source(2, 0)), ("b".to_owned(), source(3, 1))];
    match choose_replacement(&entries) {
        Choice::Rewrite(text, src) => {
            assert_eq!(text, "b");
            assert_eq!(src.rule, 1);
        }
        other => panic!("unexpected: {other:?}"),
    }
    let entries = vec![
        ("a".to_owned(), source(3, 0)),
        ("b".to_owned(), source(1, 1)),
        ("c".to_owned(), source(3, 2)),
    ];
    match choose_replacement(&entries) {
        Choice::Unrewritable(Reason::Multiple(score, kept)) => {
            assert_eq!(score, 3);
            assert_eq!(kept.len(), 2);
            assert_eq!(kept[0].0, "a");
            assert_eq!(kept[1].0, "c");
        }
        other => panic!("unexpected: {other:?}"),
    }
}

#[test]
fn a_rule_rewrites_a_highlight() {
    let rules = vec![(rule("foo", "bar"), oid(4)), (rule("qux", "quux"), oid(5))];
    let h = highlight("foo", 10, true);
    let cands = rule_candidates(&rules, &h).unwrap();
    assert!(cands[1].is_none());
    let entries = applicable_rewrites(&rules, &h).unwrap();
    assert_eq!(entries.len(), 1);
    match decide_highlight(&rules, &h, 0).unwrap() {
        Action::Rewrite(text, src) => {
            assert_eq!(text, "bar");
            assert_eq!(src.span, span(10, 0, 10, 3));
            assert_eq!((src.score, src.rule), (1, 0));
            assert_eq!(src.oid.bytes, [4; 20]);
        }
        other => panic!("unexpected: {other:?}"),
    }
}

#[test]
fn highlights_wait_for_rewritten_lines() {
    let rules = vec![(rule("foo", "bar"), oid(4))];
    assert!(matches!(decide_highlight(&rules, &highlight("foo", 10, true), 10).unwrap(), Action::Skip));
}

#[test]
fn unrewritable_highlights_are_reported_only_when_primary() {
    let rules = vec![(rule("foo", "bar"), oid(4)), (rule("foo", "baz"), oid(5))];
    match decide_highlight(&rules, &highlight("foo", 2, true), 0).unwrap() {
        Action::Report(Reason::Multiple(score, kept)) => {
            assert_eq!(score, 1);
            assert_eq!(kept.len(), 2);
            assert_eq!(kept[0].0, "bar");
            assert_eq!(kept[1].0, "baz");
        }
        other => panic!("unexpected: {other:?}"),
    }
    assert!(matches!(decide_highlight(&rules, &highlight("foo", 2, false), 0).unwrap(), Action::Skip));
    let none: Vec<(Rewrite, Oid)> = vec![];
    assert!(matches!(
        decide_highlight(&none, &highlight("foo", 2, true), 0).unwrap(),
        Action::Report(Reason::NoRewrite)
    ));
}

fn diagnostic_span(text: &str, column_start: usize, column_end: usize) -> DiagnosticSpan {
    DiagnosticSpan {
        file_name: "src/lib.rs".to_owned(),
        line_start: 4,
        line_end: 4,
        column_start,
        column_end,
        is_primary: true,
        text: strings(&[text]),
    }
}

#[test]
fn highlight_of_a_span() {
    let h = Highlight::try_new("use of `foo`", diagnostic_span("foo", 1, 4)).unwrap();
    assert_eq!(h.message, "use of `foo`");
    assert_eq!(h.tokens, strings(&["foo"]));
    assert_eq!((h.highlight_start, h.highlight_end), (0, 1));
    assert_eq!((h.line_start, h.line_end), (4, 4));
    assert!(h.is_primary);
}

#[test]
fn highlights_of_messages() {
    let messages = vec![
        Message { reason: "build-script-executed".to_owned(), diagnostic: None },
        Message {
            reason: "compiler-message".to_owned(),
            diagnostic: Some(Diagnostic {
                message: "aborting".to_owned(),
                level: DiagnosticLevel::Error,
                spans: vec![],
            }),
        },
        Message {
            reason: "compiler-message".to_owned(),
            diagnostic: Some(Diagnostic {
                message: "use of `foo`".to_owned(),
                level: DiagnosticLevel::Warning,
                spans: vec![diagnostic_span("foo", 1, 4), DiagnosticSpan { text: vec![], ..diagnostic_span("x", 1, 1) }],
            }),
        },
    ];
    let (highlights, warnings) = highlights_from_messages(messages).unwrap();
    assert_eq!(warnings, strings(&["Found diagnostic error with no spans: aborting"]));
    assert_eq!(highlights.len(), 1);
    assert_eq!(highlights[0].message, "use of `foo`");
}

#[test]
fn a_pass_rewrites_each_file() {
    let rules = vec![(rule("foo", "bar"), oid(4))];
    let text = "fn a() {}\nfoo();\nfoo();\n".to_owned();
    // Line 2 is rewritten, then line 3, which comes after it; a second highlight on line 2 waits
    // for the next pass.
    let highlights =
        vec![highlight("foo", 2, true), highlight("foo", 3, true), highlight("foo", 2, true)];
    let sources = vec![("src/lib.rs".to_owned(), text)];
    let outcome = correct_pass(&rules, &highlights, &sources).unwrap();
    assert_eq!(outcome.texts, vec!["fn a() {}\nbar();\nbar();\n".to_owned()]);
    assert!(outcome.unrewritable.is_empty());

    // A primary highlight that no rule rewrites is reported, by position.
    let none: Vec<(Rewrite, Oid)> = vec![];
    let outcome = correct_pass(&none, &vec![highlight("foo", 2, true)], &sources).unwrap();
    assert_eq!(outcome.texts, vec!["fn a() {}\nfoo();\nfoo();\n".to_owned()]);
    assert_eq!(outcome.unrewritable.len(), 1);
    assert_eq!(outcome.unrewritable[0].0, 0);

    // A rewrite outside the file's text stops the pass.
    let far = vec![highlight("foo", 40, true)];
    assert!(matches!(correct_pass(&rules, &far, &sources), Err(PassError::BadEdit(0))));
}
