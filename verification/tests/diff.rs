use codex_trace::parser::diff::{
    compute_edit_diff, group_runs, line_diff_ops, segmentize, tokenize, word_diff, DiffLine,
    DiffLineKind, LineOp,
};

fn lines(s: &str) -> Vec<String> {
    s.lines().map(str::to_string).collect()
}

fn op(kind: DiffLineKind, text: &str) -> LineOp {
    LineOp { kind, text: text.to_string() }
}

fn line_text(line: &DiffLine) -> String {
    line.segments.iter().map(|s| s.text.clone()).collect()
}

#[test]
fn tokenize_splits_words_whitespace_and_punctuation() {
    assert_eq!(
        tokenize("foo_bar(1, 2)"),
        vec!["foo_bar", "(", "1", ",", " ", "2", ")"]
    );
}

#[test]
fn word_diff_highlights_the_changed_token_when_lines_are_similar() {
    let (old, new) = word_diff(r#"    println!("old");"#, r#"    println!("new");"#).unwrap();
    assert!(old.iter().any(|s| s.changed && s.text == "old"));
    assert!(new.iter().any(|s| s.changed && s.text == "new"));
}

#[test]
fn word_diff_returns_none_for_dissimilar_lines() {
    assert!(word_diff("completely different", "totally unrelated text").is_none());
}

#[test]
fn compute_edit_diff_preserves_unchanged_context_lines() {
    let old = lines("fn main() {\n    println!(\"old\");\n}");
    let new = lines("fn main() {\n    println!(\"new\");\n}");
    let diff = compute_edit_diff(&old, &new);
    let kinds: Vec<_> = diff.iter().map(|l| l.kind).collect();
    assert_eq!(
        kinds,
        vec![
            DiffLineKind::Context,
            DiffLineKind::Removed,
            DiffLineKind::Added,
            DiffLineKind::Context,
        ]
    );
}

#[test]
fn tokens_put_together_are_the_line() {
    let line = "  let x\t= f(a_1, \"\u{e9}t\u{e9}\");";
    assert_eq!(tokenize(line).concat(), line);
    assert_eq!(tokenize(""), Vec::<String>::new());
}

#[test]
fn letters_beyond_ascii_belong_to_words() {
    assert_eq!(tokenize("\u{e9}t\u{e9}-2"), vec!["\u{e9}t\u{e9}", "-", "2"]);
}

#[test]
fn wide_spaces_are_white_space() {
    assert_eq!(tokenize("a \u{3000}b"), vec!["a", " \u{3000}", "b"]);
}

#[test]
fn word_diff_keeps_both_lines_whole() {
    let (old, new) = word_diff("let a = 1;", "let b = 1;").unwrap();
    let old_text: String = old.iter().map(|s| s.text.clone()).collect();
    let new_text: String = new.iter().map(|s| s.text.clone()).collect();
    assert_eq!(old_text, "let a = 1;");
    assert_eq!(new_text, "let b = 1;");
}

#[test]
fn white_space_changes_are_not_highlighted() {
    let (old, new) = word_diff("a  b", "a b").unwrap();
    assert!(old.iter().all(|s| !s.changed));
    assert!(new.iter().all(|s| !s.changed));
}

#[test]
fn wide_spaces_are_not_highlighted() {
    let (old, new) = word_diff("a \u{3000}b", "c\u{2003} b").unwrap();
    for segment in old.iter().chain(new.iter()) {
        assert!(!segment.changed || segment.text.chars().all(|c| !c.is_whitespace()));
    }
    assert!(old.iter().any(|s| s.changed && s.text == "a"));
    assert!(new.iter().any(|s| s.changed && s.text == "c"));
}

#[test]
fn blank_lines_have_no_word_diff() {
    assert!(word_diff("", "").is_none());
    assert!(word_diff("   ", "\t").is_none());
}

#[test]
fn line_diff_ops_lists_removed_before_added() {
    let ops = line_diff_ops(&lines("a\nb\nc"), &lines("a\nx\nc"));
    let shown: Vec<(DiffLineKind, &str)> = ops.iter().map(|o| (o.kind, o.text.as_str())).collect();
    assert_eq!(
        shown,
        vec![
            (DiffLineKind::Context, "a"),
            (DiffLineKind::Removed, "b"),
            (DiffLineKind::Added, "x"),
            (DiffLineKind::Context, "c"),
        ]
    );
}

#[test]
fn large_versions_are_not_aligned() {
    let old: Vec<String> = (0..201).map(|i| format!("line {i}")).collect();
    let ops = line_diff_ops(&old, &old);
    assert_eq!(ops.len(), 402);
    assert!(ops[..201].iter().all(|o| o.kind == DiffLineKind::Removed));
    assert!(ops[201..].iter().all(|o| o.kind == DiffLineKind::Added));
}

#[test]
fn equal_versions_show_as_context() {
    let old = lines("one\ntwo\nthree");
    let diff = compute_edit_diff(&old, &old);
    assert!(diff.iter().all(|l| l.kind == DiffLineKind::Context));
    let texts: Vec<String> = diff.iter().map(line_text).collect();
    assert_eq!(texts, old);
}

#[test]
fn group_runs_puts_the_removed_lines_of_a_run_first() {
    let ops = vec![
        op(DiffLineKind::Added, "x"),
        op(DiffLineKind::Removed, "a"),
        op(DiffLineKind::Context, "k"),
        op(DiffLineKind::Added, "y"),
        op(DiffLineKind::Removed, "b"),
        op(DiffLineKind::Added, "z"),
    ];
    let grouped = group_runs(ops);
    let shown: Vec<&str> = grouped.iter().map(|o| o.text.as_str()).collect();
    assert_eq!(shown, vec!["a", "x", "k", "b", "y", "z"]);
    let again: Vec<String> = group_runs(grouped).into_iter().map(|o| o.text).collect();
    assert_eq!(again, vec!["a", "x", "k", "b", "y", "z"]);
}

#[test]
fn segmentize_pairs_removed_and_added_lines() {
    let shown = segmentize(vec![
        op(DiffLineKind::Removed, "value = 1"),
        op(DiffLineKind::Added, "value = 2"),
        op(DiffLineKind::Added, "more"),
    ]);
    assert_eq!(shown.len(), 3);
    assert!(shown[0].segments.iter().any(|s| s.changed && s.text == "1"));
    assert!(shown[1].segments.iter().any(|s| s.changed && s.text == "2"));
    assert!(shown[2].segments.iter().all(|s| !s.changed));
    assert_eq!(line_text(&shown[2]), "more");
}

#[test]
fn a_rendered_diff_holds_both_versions() {
    let old = lines("a\nb\nc\nd");
    let new = lines("a\nc\nx\nd\ne");
    let diff = compute_edit_diff(&old, &new);
    let kept: Vec<String> = diff
        .iter()
        .filter(|l| l.kind != DiffLineKind::Added)
        .map(line_text)
        .collect();
    let made: Vec<String> = diff
        .iter()
        .filter(|l| l.kind != DiffLineKind::Removed)
        .map(line_text)
        .collect();
    assert_eq!(kept, old);
    assert_eq!(made, new);
}
