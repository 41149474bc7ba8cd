use agents_docs_manager::document::sync::{merge_index_block, render_index_block};
use agents_docs_manager::utils::index::DocumentEntry;

fn document(namespace: &str, stem: &str, path: &str, title: &str, description: &str) -> DocumentEntry {
    DocumentEntry {
        namespace: namespace.to_string(),
        document: stem.to_string(),
        path: path.to_string(),
        title: title.to_string(),
        description: description.to_string(),
    }
}

#[test]
fn replaces_existing_managed_block() {
    let existing =
        "Manual\n\n<!-- adm:docs-index:start -->\nold\n<!-- adm:docs-index:end -->\n\nFooter\n";
    let merged = merge_index_block(Some(existing), "new\n", "AGENTS.md").unwrap();

    assert_eq!(merged, "Manual\n\nnew\n\nFooter\n");
}

#[test]
fn appends_when_existing_file_has_no_managed_block() {
    let merged = merge_index_block(Some("Manual\n"), "index\n", "AGENTS.md").unwrap();

    assert_eq!(merged, "Manual\n\nindex\n");
}

#[test]
fn missing_or_blank_file_gets_the_block_alone() {
    assert_eq!(merge_index_block(None, "block\n", "AGENTS.md").unwrap(), "block\n");
    assert_eq!(merge_index_block(Some(" \n\t\n"), "block\n", "AGENTS.md").unwrap(), "block\n");
}

#[test]
fn markers_out_of_order_are_refused() {
    let existing = "<!-- adm:docs-index:end -->\n<!-- adm:docs-index:start -->\n";
    let error = merge_index_block(Some(existing), "block\n", "AGENTS.md").unwrap_err();
    assert_eq!(error.code, "invalid_index_file_markers");
    assert_eq!(error.message, "index file contains invalid adm sync markers");
    assert_eq!(error.exit_code, 1);
    assert_eq!(error.details[0].path, "end_marker");
    assert_eq!(error.details[1].path, "path");
    assert_eq!(error.details[1].value, "AGENTS.md");
    assert_eq!(error.details[2].path, "start_marker");
    let only_start = "<!-- adm:docs-index:start -->\n";
    assert!(merge_index_block(Some(only_start), "block\n", "AGENTS.md").is_err());
}

#[test]
fn sync_creates_agents_md_with_docs_index() {
    let documents = vec![
        document("cli", "reference", "docs/cli/reference.md", "reference", "本文说明 CLI reference。"),
        document("", "overview", "docs/overview.md", "overview", "本文说明 Root overview。"),
    ];
    let block = render_index_block("docs", &documents);
    let content = merge_index_block(None, &block, "AGENTS.md").unwrap();
    assert!(content.contains("<!-- adm:docs-index:start -->"));
    assert!(content.contains("## Docs Index"));
    assert!(content.contains("Source: `docs/`"));
    assert!(content.contains("### Root Documents"));
    assert!(content.contains("- `docs/overview.md` - overview - 本文说明 Root overview。"));
    assert!(content.contains("### cli"));
    assert!(content.contains("- `docs/cli/reference.md` - reference - 本文说明 CLI reference。"));
    assert!(content.contains("<!-- adm:docs-index:end -->"));
    assert_eq!(
        block,
        "<!-- adm:docs-index:start -->\n## Docs Index\n\nSource: `docs/`\n\n### Root Documents\n\n- `docs/overview.md` - overview - 本文说明 Root overview。\n\n### cli\n\n- `docs/cli/reference.md` - reference - 本文说明 CLI reference。\n\n<!-- adm:docs-index:end -->\n"
    );
}

#[test]
fn empty_index_says_no_documents() {
    let block = render_index_block("Docs", &Vec::new());
    assert_eq!(
        block,
        "<!-- adm:docs-index:start -->\n## Docs Index\n\nSource: `Docs/`\n\nNo documents found.\n\n<!-- adm:docs-index:end -->\n"
    );
}

#[test]
fn sync_replaces_managed_agents_block_and_preserves_manual_content() {
    let documents = vec![document("", "overview", "docs/overview.md", "overview", "本文说明 Root overview。")];
    let existing = "Manual intro.\n\n<!-- adm:docs-index:start -->\nold index\n<!-- adm:docs-index:end -->\n\nManual footer.\n";
    let block = render_index_block("docs", &documents);
    let content = merge_index_block(Some(existing), &block, "AGENTS.md").unwrap();
    assert!(content.starts_with("Manual intro.\n\n"));
    assert!(content.contains("Manual footer."));
    assert!(!content.contains("old index"));
    assert!(content.contains("- `docs/overview.md` - overview - 本文说明 Root overview。"));
}

#[test]
fn syncing_twice_changes_nothing() {
    let documents = vec![document("", "overview", "docs/overview.md", "overview", "本文说明 Root overview。")];
    let block = render_index_block("docs", &documents);
    for existing in [
        None,
        Some("Manual intro.\n"),
        Some("Manual intro.\n\n<!-- adm:docs-index:start -->\nold\n<!-- adm:docs-index:end -->\nFooter\n"),
    ] {
        let once = merge_index_block(existing, &block, "AGENTS.md").unwrap();
        let twice = merge_index_block(Some(&once), &block, "AGENTS.md").unwrap();
        assert_eq!(once, twice);
    }
}
