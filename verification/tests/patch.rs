use codex_trace::parser::diff::DiffLineKind;
use codex_trace::parser::patch::{parse_apply_patch, PatchFileOp};

#[test]
fn returns_none_for_non_patch_text() {
    assert!(parse_apply_patch("just some output text").is_none());
    assert!(parse_apply_patch("").is_none());
}

#[test]
fn parses_an_update_with_context_removed_and_added_lines() {
    let patch = [
        "*** Begin Patch",
        "*** Update File: src/main.rs",
        "@@",
        " fn main() {",
        "-    println!(\"old\");",
        "+    println!(\"new\");",
        " }",
        "*** End Patch",
    ]
    .join("\n");

    let files = parse_apply_patch(&patch).unwrap();
    assert_eq!(files.len(), 1);
    let file = &files[0];
    assert_eq!(file.op, PatchFileOp::Update);
    assert_eq!(file.path, "src/main.rs");
    assert_eq!(file.move_path, None);
    assert_eq!(file.hunks.len(), 1);

    let lines = &file.hunks[0].lines;
    let kinds: Vec<_> = lines.iter().map(|l| l.kind).collect();
    assert_eq!(
        kinds,
        vec![
            DiffLineKind::Context,
            DiffLineKind::Removed,
            DiffLineKind::Added,
            DiffLineKind::Context,
        ]
    );
    let line0: String = lines[0].segments.iter().map(|s| s.text.clone()).collect();
    assert_eq!(line0, "fn main() {");
    assert!(lines[1].segments.iter().any(|s| s.changed));
    assert!(lines[2].segments.iter().any(|s| s.changed));
    let removed: String = lines[1].segments.iter().map(|s| s.text.clone()).collect();
    assert_eq!(removed, "    println!(\"old\");");
    let added: String = lines[2].segments.iter().map(|s| s.text.clone()).collect();
    assert_eq!(added, "    println!(\"new\");");
}

#[test]
fn parses_an_added_file_with_all_added_lines() {
    let patch = [
        "*** Begin Patch",
        "*** Add File: docs/README.md",
        "+# Title",
        "+",
        "+body",
        "*** End Patch",
    ]
    .join("\n");

    let files = parse_apply_patch(&patch).unwrap();
    assert_eq!(files[0].op, PatchFileOp::Add);
    assert_eq!(files[0].path, "docs/README.md");
    let lines = &files[0].hunks[0].lines;
    let kinds: Vec<_> = lines.iter().map(|l| l.kind).collect();
    assert_eq!(
        kinds,
        vec![
            DiffLineKind::Added,
            DiffLineKind::Added,
            DiffLineKind::Added
        ]
    );
    let texts: Vec<String> = lines
        .iter()
        .map(|l| l.segments.iter().map(|s| s.text.clone()).collect())
        .collect();
    assert_eq!(
        texts,
        vec!["# Title".to_string(), String::new(), "body".to_string()]
    );
}

#[test]
fn parses_a_deleted_file_header_with_no_body() {
    let patch = [
        "*** Begin Patch",
        "*** Delete File: old/file.txt",
        "*** End Patch",
    ]
    .join("\n");
    let files = parse_apply_patch(&patch).unwrap();
    assert_eq!(files[0].op, PatchFileOp::Delete);
    assert_eq!(files[0].path, "old/file.txt");
    assert!(files[0].hunks.is_empty());
}

#[test]
fn captures_a_move_rename_target() {
    let patch = [
        "*** Begin Patch",
        "*** Update File: a/old.ts",
        "*** Move to: a/new.ts",
        "@@",
        "-const x = 1;",
        "+const x = 2;",
        "*** End Patch",
    ]
    .join("\n");
    let files = parse_apply_patch(&patch).unwrap();
    assert_eq!(files[0].move_path, Some("a/new.ts".to_string()));
}

#[test]
fn splits_multiple_files_and_multiple_hunks() {
    let patch = [
        "*** Begin Patch",
        "*** Update File: a.ts",
        "@@ first hunk",
        "-a",
        "+b",
        "@@ second hunk",
        " keep",
        "+added",
        "*** Update File: b.ts",
        "@@",
        "-gone",
        "*** End Patch",
    ]
    .join("\n");
    let files = parse_apply_patch(&patch).unwrap();
    assert_eq!(files.len(), 2);
    assert_eq!(files[0].path, "a.ts");
    assert_eq!(files[0].hunks.len(), 2);
    assert_eq!(files[0].hunks[0].header, "first hunk");
    assert_eq!(files[0].hunks[1].header, "second hunk");
    assert_eq!(files[1].path, "b.ts");
    let kinds: Vec<_> = files[1].hunks[0].lines.iter().map(|l| l.kind).collect();
    assert_eq!(kinds, vec![DiffLineKind::Removed]);
}

#[test]
fn does_not_emit_a_spurious_blank_line_from_a_trailing_newline() {
    let patch = [
        "*** Begin Patch",
        "*** Add File: f.txt",
        "+hi",
        "*** End Patch",
        "",
    ]
    .join("\n");
    let files = parse_apply_patch(&patch).unwrap();
    let kinds: Vec<_> = files[0].hunks[0].lines.iter().map(|l| l.kind).collect();
    assert_eq!(kinds, vec![DiffLineKind::Added]);
}

#[test]
fn stray_lines_before_the_first_file_are_passed_over() {
    let patch = "*** Begin Patch\n+stray\n*** Move to: nowhere\n*** Add File: f\n+kept";
    let files = parse_apply_patch(patch).unwrap();
    assert_eq!(files.len(), 1);
    assert_eq!(files[0].move_path, None);
    assert_eq!(files[0].hunks.len(), 1);
    assert_eq!(files[0].hunks[0].lines.len(), 1);
}

#[test]
fn a_begin_marker_alone_is_no_patch() {
    assert!(parse_apply_patch("*** Begin Patch\n@@\n-a\n+b\n*** End Patch").is_none());
}

#[test]
fn a_file_header_alone_is_a_patch() {
    let files = parse_apply_patch("  *** Add File: x\n*** Delete File:   y \n").unwrap();
    assert_eq!(files.len(), 1);
    assert_eq!(files[0].op, PatchFileOp::Delete);
    assert_eq!(files[0].path, "y");
}

#[test]
fn untagged_lines_are_context() {
    let files = parse_apply_patch("*** Update File: f\nplain\n\n tagged").unwrap();
    let lines = &files[0].hunks[0].lines;
    let texts: Vec<String> = lines
        .iter()
        .map(|l| l.segments.iter().map(|s| s.text.clone()).collect())
        .collect();
    assert_eq!(texts, vec!["plain", "", "tagged"]);
    assert!(lines.iter().all(|l| l.kind == DiffLineKind::Context));
}

#[test]
fn hunks_without_lines_are_dropped() {
    let files = parse_apply_patch("*** Update File: f\n@@ one\n@@ two\n+x").unwrap();
    assert_eq!(files[0].hunks.len(), 1);
    assert_eq!(files[0].hunks[0].header, "two");
}

#[test]
fn a_final_newline_changes_nothing() {
    let patch = "*** Update File: f\n-a\n+b";
    let ended = format!("{patch}\n");
    assert_eq!(parse_apply_patch(patch), parse_apply_patch(&ended));
}

#[test]
fn removed_lines_of_a_run_come_first() {
    let files = parse_apply_patch("*** Update File: f\n+new\n-old").unwrap();
    let kinds: Vec<_> = files[0].hunks[0].lines.iter().map(|l| l.kind).collect();
    assert_eq!(kinds, vec![DiffLineKind::Removed, DiffLineKind::Added]);
}

#[test]
fn a_newline_alone_is_no_patch_either() {
    assert_eq!(parse_apply_patch(""), None);
    assert_eq!(parse_apply_patch("\n"), None);
}
