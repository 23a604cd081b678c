use opdev::bootstrap::{
    confirm_preview,    is_managed_block, reconcile_agent_files, replace_or_append_block, BootstrapError, FileChange, Reconciliation, AGENTS_BLOCK,
    CLAUDE_BLOCK, END_MARKER, START_MARKER,
};

const SECOND: &str = "second-agent.md";

fn plan(agents: Option<&str>, second: Option<&str>) -> Result<Reconciliation, BootstrapError> {
    reconcile_agent_files("AGENTS.md", Ok(agents.map(str::to_string)), SECOND, Ok(second.map(str::to_string)))
}

#[test]
fn shipped_blocks_have_the_managed_shape() {
    assert!(is_managed_block(AGENTS_BLOCK));
    assert!(is_managed_block(CLAUDE_BLOCK));
    assert!(!is_managed_block("<!-- opdev:start -->\r\nx\r\n<!-- opdev:end -->"));
    assert!(!is_managed_block("<!-- opdev:start --><!-- opdev:end -->"));
    assert!(!is_managed_block("<!-- opdev:start -->\n<!-- opdev:end -->\n<!-- opdev:end -->"));
}

#[test]
fn creates_both_files_and_is_idempotent() {
    let first = plan(None, None).unwrap();
    assert!(first.preview.iter().all(|p| p.file.change == FileChange::Created));
    assert_eq!(first.writes, vec![0, 1]);
    let agents = first.preview[0].after.clone();
    let second_file = first.preview[1].after.clone();
    assert!(agents.contains("If the `opdev` CLI"));
    assert!(agents.contains("MinimumCD requirements are mandatory"));
    assert!(second_file.contains("@AGENTS.md"));
    let again = plan(Some(&agents), Some(&second_file)).unwrap();
    assert!(again.preview.iter().all(|p| p.file.change == FileChange::Unchanged));
    assert!(again.writes.is_empty());
}

#[test]
fn preserves_project_owned_content() {
    let result = plan(Some("# Project rules\n\nKeep me.\n"), None).unwrap();
    let agents = &result.preview[0].after;
    assert!(agents.starts_with("# Project rules\n\nKeep me.\n"));
    assert!(agents.contains(START_MARKER));
}

#[test]
fn upgrades_only_the_managed_block() {
    let result = plan(Some("before\n<!-- opdev:start -->\nold\n<!-- opdev:end -->\nafter\n"), None).unwrap();
    let agents = &result.preview[0].after;
    assert!(agents.starts_with("before\n"));
    assert!(agents.ends_with("\nafter\n"));
    assert!(!agents.contains("\nold\n"));
    assert_eq!(result.preview[0].file.change, FileChange::Updated);
}

#[test]
fn refuses_ambiguous_markers_without_writing() {
    assert!(matches!(
        plan(Some("<!-- opdev:start -->\nbroken\n"), None),
        Err(BootstrapError::MalformedMarkers { .. })
    ));
}

#[test]
fn accepts_an_existing_import_without_duplication() {
    let result = plan(None, Some("# Agent\n\n@AGENTS.md\n")).unwrap();
    assert_eq!(result.preview[1].after.matches("@AGENTS.md").count(), 1);
    assert_eq!(result.preview[1].file.change, FileChange::Unchanged);
}

#[test]
fn placing_a_block_twice_changes_nothing_with_either_line_ending() {
    for content in ["", "text\r\n", "one\ntwo\n\n", "a\r\n<!-- opdev:start -->\r\nx\r\n<!-- opdev:end -->\r\nz"] {
        let once = replace_or_append_block("f", content, AGENTS_BLOCK).unwrap();
        let twice = replace_or_append_block("f", &once, AGENTS_BLOCK).unwrap();
        assert_eq!(once, twice, "{content:?}");
    }
    let crlf = replace_or_append_block("f", "x\r\n", CLAUDE_BLOCK).unwrap();
    assert_eq!(crlf, format!("x\r\n\r\n{}\r\n", CLAUDE_BLOCK.replace('\n', "\r\n")));
}

#[test]
fn a_block_with_other_markup_is_placed_once_and_kept() {
    let block = "<!-- opdev:start -->\n<details><summary>x</summary> <!-- note --></details>\n<!-- opdev:end -->";
    assert!(is_managed_block(block));
    for content in ["", "<p>intro</p>\n", "a\r\n<!-- opdev:start -->\r\nold\r\n<!-- opdev:end -->\r\n<b>z</b>"] {
        let once = replace_or_append_block("f", content, block).unwrap();
        let twice = replace_or_append_block("f", &once, block).unwrap();
        assert_eq!(once, twice, "{content:?}");
    }
}

#[test]
fn a_file_changed_after_preview_is_never_overwritten() {
    let plan = plan(Some("# Project\n"), None).unwrap();
    let first = &plan.preview[0];
    assert!(confirm_preview(first, Ok(Some("# Project\n".into()))).is_ok());
    match confirm_preview(first, Ok(Some("# Project, edited\n".into()))) {
        Err(BootstrapError::StalePreview { path }) => assert_eq!(path, "AGENTS.md"),
        other => panic!("{other:?}"),
    }
    assert!(matches!(confirm_preview(first, Ok(None)), Err(BootstrapError::StalePreview { .. })));
    let second = &plan.preview[1];
    assert!(confirm_preview(second, Ok(None)).is_ok());
    assert!(matches!(confirm_preview(second, Ok(Some(String::new()))), Err(BootstrapError::StalePreview { .. })));
    let denied = BootstrapError::Read { path: "AGENTS.md".into(), reason: "denied".into() };
    assert!(matches!(confirm_preview(first, Err(denied)), Err(BootstrapError::Read { .. })));
}
