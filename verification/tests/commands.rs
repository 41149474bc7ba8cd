use agents_docs_manager::cli::{fix_rows, invalid_command};
use agents_docs_manager::document::fix::{fix, fix_candidates};
use agents_docs_manager::document::inspection::{check, tree};
use agents_docs_manager::document::patch::{
    PatchOperation, applied_document, check_patch_set, normalize_patch_path, patched_document,
};
use agents_docs_manager::document::service as document_service;
use agents_docs_manager::document::service::plan_existing_document;
use agents_docs_manager::namespace::service as namespace_service;
use agents_docs_manager::utils::error::AppError;
use agents_docs_manager::utils::index::{
    DirEntry, DocsIndex, DocumentEntry, NamespaceListing, ScanItem, documents_from_scan,
};
use agents_docs_manager::utils::output::{CommandOutput, format_error, format_success};
use agents_docs_manager::utils::workspace::{
    FoundWorkspace, inferred_index, workspace_from_index, workspace_not_initialized,
};

fn found(doc_dir: &str, style: &str) -> Result<FoundWorkspace, AppError> {
    let index = DocsIndex::new(doc_dir.to_string(), style.to_string());
    let workspace = workspace_from_index("/repo", &index).unwrap();
    Ok(FoundWorkspace { workspace, index })
}

fn has_line(text: &str, expected: &str) -> bool {
    text.lines().any(|line| line == expected)
}

fn error_text(error: &AppError) -> String {
    format_error(error)
}

fn scan(dir: &str, docs: &[(&str, &str, &str)]) -> Vec<DocumentEntry> {
    let items = docs
        .iter()
        .map(|(namespace, stem, content)| ScanItem::Document {
            namespace: namespace.to_string(),
            stem: stem.to_string(),
            content: Ok(content.to_string()),
        })
        .collect::<Vec<_>>();
    documents_from_scan(dir, &items).unwrap()
}

fn dir_entry(name: &str, is_dir: bool) -> DirEntry {
    DirEntry { name: name.to_string(), is_dir, is_file: !is_dir }
}

const CODE_STYLE: &str = "# code_style\n\n本文说明 Rust code style conventions。\n";
const OVERVIEW: &str = "# overview\n\n本文说明 Root overview。\n";

#[test]
fn commands_require_init_marker() {
    let text = error_text(&workspace_not_initialized());
    assert!(has_line(
        &text,
        "error: workspace_not_initialized: failed to locate docs.json; run adm init first"
    ));
    assert_eq!(workspace_not_initialized().exit_code, 2);
}

#[test]
fn init_uses_most_common_first_level_directory_naming_style() {
    let entries = vec![dir_entry("src", true), dir_entry("tests", true), dir_entry("CloudEngine", false), dir_entry(".git", true)];
    let index = inferred_index(&entries);
    assert_eq!(index.naming_style, "snake_case");
    assert_eq!(index.doc_dir, "./docs");
    assert_eq!(index.index_file, "./AGENTS.md");
}

#[test]
fn init_uses_pascal_case_from_first_level_directories() {
    let entries = vec![dir_entry("Source", true), dir_entry("Tests", true), dir_entry("cloud_engine", false)];
    let index = inferred_index(&entries);
    assert_eq!(index.naming_style, "PascalCase");
    assert_eq!(index.doc_dir, "./Docs");
}

#[test]
fn init_uses_kebab_case_from_first_level_directories() {
    let entries = vec![dir_entry("project-docs", true), dir_entry("api-guides", true), dir_entry("src", true)];
    let index = inferred_index(&entries);
    assert_eq!(index.naming_style, "kebab-case");
    assert_eq!(index.doc_dir, "./docs");
}

#[test]
fn init_falls_back_to_snake_case_on_a_tie() {
    let entries = vec![dir_entry("Source", true), dir_entry("api-guides", true)];
    assert_eq!(inferred_index(&entries).naming_style, "snake_case");
    assert_eq!(inferred_index(&Vec::new()).naming_style, "snake_case");
}

#[test]
fn init_ignores_files_among_root_entries() {
    let entries = vec![
        dir_entry("ReadMe", false),
        dir_entry("ChangeLog", false),
        dir_entry("LicenseText", false),
        dir_entry("api-guides", true),
    ];
    let directories: Vec<_> = vec![dir_entry("api-guides", true)];
    assert_eq!(inferred_index(&entries).naming_style, "kebab-case");
    assert_eq!(inferred_index(&entries).naming_style, inferred_index(&directories).naming_style);
}

#[test]
fn root_docs_lifecycle_omits_namespace_arg() {
    let ws = found("./docs", "snake_case");
    let plan = document_service::create(&ws, None, "overview", "# overview\n\n本文说明 Root overview。\n", false, false).unwrap();
    assert!(plan.ensure_documents_directory);
    assert_eq!(plan.file, "/repo/docs/overview.md");
    let created = plan.outcome.unwrap();
    let text = format_success(&CommandOutput::Path(created.path.clone()));
    assert!(has_line(&text, "docs/overview.md"));

    let documents = scan("docs", &[("", "overview", OVERVIEW)]);
    let listed = document_service::list(&ws, None, false, &Ok(documents)).unwrap();
    let rows = agents_docs_manager::cli::document_rows(&listed);
    let text = format_success(&CommandOutput::Documents(rows));
    assert!(has_line(&text, "overview docs/overview.md"));

    let documents = scan("docs", &[("", "overview", OVERVIEW)]);
    let tree = tree("docs", &documents, &Vec::new());
    let text = format_success(&CommandOutput::Tree(tree));
    assert!(has_line(&text, "docs/"));
    assert!(has_line(&text, "`-- overview.md - 本文说明 Root overview。"));

    let target = plan_existing_document(&ws, None, "overview", false, true).unwrap();
    let patch = "\
--- a/docs/overview.md
+++ b/docs/overview.md
@@ -1,3 +1,3 @@
 # overview

-本文说明 Root overview。
+本文说明 Root overview document。
";
    let patched = patched_document(OVERVIEW, patch, &target.path).unwrap();
    assert_eq!(patched, "# overview\n\n本文说明 Root overview document。\n");
    let text = format_success(&CommandOutput::Path(target.patched().path));
    assert!(has_line(&text, "docs/overview.md"));

    assert!(check("snake_case", &Ok(vec!["overview".to_string()]), &Ok(Vec::new())).is_ok());
    assert!(has_line(&format_success(&CommandOutput::CheckOk), "OK"));

    let deleted = plan_existing_document(&ws, None, "overview", false, true).unwrap().deleted();
    assert_eq!(deleted.path, "docs/overview.md");
    assert!(deleted.deleted);
}

#[test]
fn namespace_delete_requires_delete_docs_for_non_empty_namespace() {
    let ws = found("./docs", "snake_case");
    let error = namespace_service::delete("conventions", false, &ws, true, &Ok(false)).unwrap_err();
    assert!(has_line(&error_text(&error), "error: namespace_not_empty: namespace is not empty"));
    assert_eq!(error.exit_code, 1);
    assert_eq!(error.details[1].path, "required_flag");
    assert_eq!(error.details[1].value, "--delete-docs");

    let plan = namespace_service::delete("conventions", true, &ws, true, &Ok(false)).unwrap();
    let text = format_success(&CommandOutput::NamespaceName(plan.deleted.namespace.clone()));
    assert!(has_line(&text, "conventions"));
    assert_eq!(plan.directory, "/repo/docs/conventions");
    assert!(plan.deleted.deleted_docs);
    let missing = namespace_service::delete("conventions", true, &ws, false, &Ok(true)).unwrap_err();
    assert_eq!(missing.code, "namespace_not_found");
}

#[test]
fn fix_outputs_ok_when_no_migration_is_needed() {
    let root = Ok(Vec::new());
    let namespaces = Ok(vec![NamespaceListing {
        namespace: "conventions".to_string(),
        documents: Ok(vec!["code_style".to_string()]),
    }]);
    assert!(fix_candidates("docs", "snake_case", &root, &namespaces).is_empty());
    let plan = fix("docs", "snake_case", &root, &namespaces, &Vec::new()).unwrap();
    assert!(plan.is_empty());
    let text = format_success(&CommandOutput::Fix(fix_rows(&plan)));
    assert!(has_line(&text, "OK"));
}

#[test]
fn fix_migrates_namespaces_and_documents_after_naming_style_change() {
    let root = Ok(vec!["RootGuide".to_string()]);
    let namespaces = Ok(vec![NamespaceListing {
        namespace: "Conventions".to_string(),
        documents: Ok(vec!["CodeStyle".to_string()]),
    }]);
    let error = check("snake_case", &root, &namespaces).unwrap_err();
    let text = error_text(&error);
    assert!(has_line(&text, "error: check_failed: repository documentation checks failed"));
    assert!(has_line(&text, "details.invalid_documents[0].document: RootGuide"));
    assert!(has_line(&text, "details.invalid_documents[1].document: CodeStyle"));
    assert!(has_line(&text, "details.invalid_namespaces[0].namespace: Conventions"));

    let candidates = fix_candidates("Docs", "snake_case", &root, &namespaces);
    assert_eq!(candidates.len(), 3);
    let plan = fix("Docs", "snake_case", &root, &namespaces, &Vec::new()).unwrap();
    let text = format_success(&CommandOutput::Fix(fix_rows(&plan)));
    assert!(has_line(&text, "Docs/RootGuide.md -> Docs/root_guide.md"));
    assert!(has_line(&text, "Docs/Conventions -> Docs/conventions"));
    assert!(has_line(&text, "Docs/Conventions/CodeStyle.md -> Docs/conventions/code_style.md"));
    assert_eq!(plan[0].from, "Docs/Conventions");
    assert_eq!(plan[2].from, "Docs/conventions/CodeStyle.md");
    assert_eq!(plan[2].to, "Docs/conventions/code_style.md");
    for rename in &plan {
        assert!(candidates
            .iter()
            .any(|c| c.path == rename.new_path && c.source == rename.old_path));
    }
    assert_eq!(plan[0].failure("denied").code, "fix_namespace_failed");
    assert_eq!(plan[1].failure("denied").details[0].value, "Docs/RootGuide.md -> Docs/root_guide.md");

    let renamed_root = Ok(vec!["root_guide".to_string()]);
    let renamed = Ok(vec![NamespaceListing {
        namespace: "conventions".to_string(),
        documents: Ok(vec!["code_style".to_string()]),
    }]);
    assert!(check("snake_case", &renamed_root, &renamed).is_ok());
}

#[test]
fn fix_refuses_duplicate_and_taken_targets() {
    let root = Ok(vec!["CodeStyle".to_string(), "code_style".to_string()]);
    let error = fix("docs", "snake_case", &root, &Ok(Vec::new()), &Vec::new()).unwrap_err();
    assert_eq!(error.code, "fix_conflict");
    assert_eq!(error.message, "naming_style migration would create duplicate document paths");
    assert_eq!(error.details[0].value, "docs/code_style.md");
    assert_eq!(error.details[1].value, "docs/CodeStyle.md");
    assert_eq!(error.details[2].value, "docs/code_style.md");

    let root = Ok(vec!["CodeStyle".to_string()]);
    let taken = vec!["docs/code_style.md".to_string()];
    let error = fix("docs", "snake_case", &root, &Ok(Vec::new()), &taken).unwrap_err();
    assert_eq!(error.message, "naming_style migration target already exists");
}

#[test]
fn check_rejects_existing_namespace_that_does_not_match_naming_style() {
    let namespaces = Ok(vec![NamespaceListing { namespace: "Conventions".to_string(), documents: Ok(Vec::new()) }]);
    let error = check("snake_case", &Ok(Vec::new()), &namespaces).unwrap_err();
    let text = error_text(&error);
    assert!(has_line(&text, "error: check_failed: repository documentation checks failed"));
    assert!(has_line(&text, "details.invalid_namespaces[0].namespace: Conventions"));
    assert!(has_line(&text, "details.invalid_namespaces[0].naming_style_regex: [a-z][a-z0-9_]*"));
}

#[test]
fn docs_patch_applies_single_unified_diff_from_stdin() {
    let ws = found("./docs", "snake_case");
    let target = plan_existing_document(&ws, Some("conventions"), "code_style", true, true).unwrap();
    assert_eq!(target.path, "docs/conventions/code_style.md");
    assert_eq!(target.file, "/repo/docs/conventions/code_style.md");
    let patch = "\
--- a/docs/conventions/code_style.md
+++ b/docs/conventions/code_style.md
@@ -1,3 +1,3 @@
 # code_style

-本文说明 Rust code style conventions。
+本文说明 Rust code style guidelines。
";
    let patched = patched_document(CODE_STYLE, patch, &target.path).unwrap();
    assert!(patched.contains("本文说明 Rust code style guidelines。"));
    let text = format_success(&CommandOutput::Path(target.patched().path));
    assert!(has_line(&text, "docs/conventions/code_style.md"));
}

#[test]
fn docs_patch_rejects_when_context_does_not_match() {
    let patch = "\
--- a/docs/conventions/code_style.md
+++ b/docs/conventions/code_style.md
@@ -1 +1 @@
-# WRONG
+# RIGHT
";
    let error = patched_document(CODE_STYLE, patch, "docs/conventions/code_style.md").unwrap_err();
    assert!(has_line(&error_text(&error), "error: patch_apply_failed: patch does not apply to current document"));
    assert_eq!(error.exit_code, 1);
}

#[test]
fn docs_patch_rejects_multi_file_patch() {
    let patch = "\
--- a/docs/conventions/code_style.md
+++ b/docs/conventions/code_style.md
@@ -1 +1 @@
-# code_style
+# Code Style
--- a/docs/conventions/other.md
+++ b/docs/conventions/other.md
@@ -1 +1 @@
-# other
+# Other
";
    let error = patched_document(CODE_STYLE, patch, "docs/conventions/code_style.md").unwrap_err();
    assert!(has_line(
        &error_text(&error),
        "error: patch_must_target_single_document: patch must contain exactly one file patch"
    ));
    assert_eq!(error.exit_code, 2);
    assert_eq!(error.details[0].value, "2");
}

#[test]
fn docs_patch_rejects_target_path_mismatch() {
    let patch = "\
--- a/docs/conventions/other.md
+++ b/docs/conventions/other.md
@@ -1,3 +1,3 @@
 # code_style

-本文说明 Rust code style conventions。
+本文说明 Rust code style guidelines。
";
    let error = patched_document(CODE_STYLE, patch, "docs/conventions/code_style.md").unwrap_err();
    assert!(has_line(&error_text(&error), "error: patch_target_mismatch: patch must target the selected document"));
    assert_eq!(error.details[0].path, "actual_modified");
    assert_eq!(error.details[0].value, "docs/conventions/other.md");
}

#[test]
fn patch_input_problems() {
    let error = patched_document(CODE_STYLE, " \n\t", "docs/a.md").unwrap_err();
    assert_eq!(error.code, "empty_patch");
    let error = patched_document(CODE_STYLE, "not a diff at all\n", "docs/a.md").unwrap_err();
    assert_eq!(error.code, "invalid_patch");
    assert_eq!(error.details[0].path, "gitdiff_source");
    assert_eq!(error.details[1].path, "unidiff_source");
    let removal = "\
--- a/docs/conventions/code_style.md
+++ b/docs/conventions/code_style.md
@@ -1,3 +1,3 @@
-# code_style
+code_style
 
 本文说明 Rust code style conventions。
";
    let error = patched_document(CODE_STYLE, removal, "docs/conventions/code_style.md").unwrap_err();
    assert_eq!(error.code, "invalid_document_metadata");
}

#[test]
fn patch_set_rules_on_given_values() {
    assert_eq!(normalize_patch_path("a/docs/x.md"), "docs/x.md");
    assert_eq!(normalize_patch_path("b/docs/x.md"), "docs/x.md");
    assert_eq!(normalize_patch_path("docs/x.md"), "docs/x.md");
    let modify = PatchOperation::Modify { original: "a/docs/x.md".to_string(), modified: "b/docs/x.md".to_string() };
    assert!(check_patch_set(1, &modify, "docs/x.md").is_ok());
    let other = PatchOperation::Other("Delete(\"docs/x.md\")".to_string());
    let error = check_patch_set(1, &other, "docs/x.md").unwrap_err();
    assert_eq!(error.code, "unsupported_patch_operation");
    assert_eq!(error.details[0].value, "Delete(\"docs/x.md\")");
    assert_eq!(check_patch_set(0, &modify, "docs/x.md").unwrap_err().details[0].value, "0");
    assert_eq!(applied_document(None, "docs/x.md").unwrap_err().code, "unsupported_patch_kind");
    let error = applied_document(Some(Err("error applying hunk #1".to_string())), "docs/x.md").unwrap_err();
    assert_eq!(error.details[1].value, "error applying hunk #1");
    assert_eq!(applied_document(Some(Ok("text".to_string())), "docs/x.md").unwrap(), "text");
}

#[test]
fn rejects_docs_create_when_name_does_not_match_naming_style() {
    let ws = found("./docs", "snake_case");
    let plan = document_service::create(&ws, Some("conventions"), "code-style", "# code-style\n", true, false).unwrap();
    assert!(!plan.ensure_documents_directory);
    let error = plan.outcome.unwrap_err();
    assert!(has_line(&error_text(&error), "error: invalid_document_name: document name does not match naming_style"));
}

#[test]
fn create_refuses_missing_namespace_and_existing_file() {
    let ws = found("./docs", "snake_case");
    let error = document_service::create(&ws, Some("conventions"), "code_style", CODE_STYLE, false, false).unwrap_err();
    assert_eq!(error.code, "namespace_not_found");
    let plan = document_service::create(&ws, Some("conventions"), "code_style.md", CODE_STYLE, true, true).unwrap();
    let error = plan.outcome.unwrap_err();
    assert_eq!(error.code, "document_exists");
    assert_eq!(error.message, "document already exists");
    assert_eq!(error.details[0].value, "docs/conventions/code_style.md");
    let error = document_service::create(&Err(workspace_not_initialized()), None, "x", CODE_STYLE, false, false).unwrap_err();
    assert_eq!(error.code, "workspace_not_initialized");
    let error = document_service::create(&Err(workspace_not_initialized()), None, ".x", CODE_STYLE, false, false).unwrap_err();
    assert_eq!(error.code, "invalid_document_name");
}

#[test]
fn namespace_create_rejects_name_that_does_not_match_naming_style() {
    let ws = found("./docs", "snake_case");
    let error = namespace_service::create("Conventions", None, &ws, false).unwrap_err();
    assert!(has_line(&error_text(&error), "error: invalid_namespace_name: namespace name does not match naming_style"));
    let plan = namespace_service::create("conventions", None, &ws, false).unwrap();
    assert_eq!(plan.directory, "/repo/docs/conventions");
    let created = plan.outcome.unwrap();
    assert!(has_line(&format_success(&CommandOutput::Path(created.path)), "docs/conventions"));
    let plan = namespace_service::create("conventions", None, &ws, true).unwrap();
    assert_eq!(plan.outcome.unwrap_err().message, "namespace already exists");
}

#[test]
fn namespace_create_rejects_namespace_specific_regex() {
    let ws = found("./docs", "snake_case");
    let error = namespace_service::create("conventions", Some("[A-Z][A-Z0-9_]*"), &ws, false).unwrap_err();
    assert!(has_line(
        &error_text(&error),
        "error: unsupported_namespace_regex: namespace-specific document_name_regex is no longer supported; use docs.json naming_style"
    ));
    assert_eq!(error.exit_code, 2);
}

#[test]
fn docs_create_rejects_missing_metadata_pattern() {
    let ws = found("./docs", "snake_case");
    let plan = document_service::create(&ws, Some("conventions"), "code_style", "# code_style\n\nRust code style conventions.\n", true, false).unwrap();
    let error = plan.outcome.unwrap_err();
    assert!(has_line(
        &error_text(&error),
        "error: invalid_document_metadata: document metadata paragraph must match: 本文说明<description>。"
    ));
}

#[test]
fn docs_rename_requires_unique_origin_document_name() {
    let ws = found("./docs", "snake_case");
    let documents = scan(
        "docs",
        &[
            ("conventions", "readme", "# readme\n\n本文说明 conventions readme。\n"),
            ("design", "readme", "# readme\n\n本文说明 design readme。\n"),
        ],
    );
    let error = document_service::rename_unique(&ws, &Ok(documents), "readme", "readme_NEW").unwrap_err();
    let text = error_text(&error);
    assert!(has_line(&text, "error: document_ambiguous: document exists in multiple namespaces"));
    assert!(has_line(&text, "details.matches[0]: docs/conventions/readme.md"));
    assert!(has_line(&text, "details.matches[1]: docs/design/readme.md"));
}

#[test]
fn rename_moves_a_document_inside_its_namespace() {
    let ws = found("./docs", "snake_case");
    let documents = scan("docs", &[("conventions", "code_style", CODE_STYLE)]);
    let plan = document_service::rename_unique(&ws, &Ok(documents), "code_style", "rust_style.md").unwrap();
    assert_eq!(plan.old_file, "/repo/docs/conventions/code_style.md");
    assert_eq!(plan.new_file, "/repo/docs/conventions/rust_style.md");
    let renamed = plan.finish(true, false).unwrap();
    assert_eq!(renamed.new_path, "docs/conventions/rust_style.md");
    assert_eq!(plan.finish(true, true).unwrap_err().message, "target document already exists");
    assert_eq!(plan.finish(false, false).unwrap_err().code, "document_not_found");
    let error = plan.failure("denied");
    assert_eq!(error.details[0].value, "docs/conventions/code_style.md -> docs/conventions/rust_style.md");
    assert_eq!(error.details[1].value, "denied");
    let missing = document_service::rename_unique(&ws, &Ok(Vec::new()), "code_style", "x").unwrap_err();
    assert_eq!(missing.code, "document_not_found");
    assert_eq!(missing.details[0].path, "document");
}

#[test]
fn namespace_and_docs_lifecycle_uses_cli_args() {
    let ws = found("./docs", "snake_case");
    let names = Ok(vec!["conventions".to_string()]);
    let summaries = namespace_service::list(&ws, &names).unwrap();
    assert_eq!(summaries[0].path, "docs/conventions");
    assert_eq!(summaries[0].naming_style_regex, "[a-z][a-z0-9_]*");
    let rows = agents_docs_manager::cli::namespace_rows(&summaries);
    assert!(has_line(&format_success(&CommandOutput::Namespaces(rows)), "conventions docs/conventions"));

    let documents = scan("docs", &[("conventions", "code_style", CODE_STYLE)]);
    let groups = namespace_service::list_docs(&ws, &Ok(documents), &names).unwrap();
    let rows = agents_docs_manager::cli::namespace_document_rows(&groups);
    let text = format_success(&CommandOutput::NamespaceDocuments(rows));
    assert!(has_line(&text, "conventions/"));
    assert!(has_line(&text, "  code_style docs/conventions/code_style.md"));

    let documents = scan("docs", &[("conventions", "code_style", CODE_STYLE)]);
    let tree = tree("docs", &documents, &vec!["conventions".to_string()]);
    assert_eq!(tree, "docs/\n`-- conventions/\n    `-- code_style.md - 本文说明 Rust code style conventions。");

    let documents = scan("docs", &[("conventions", "code_style", CODE_STYLE)]);
    let listed = document_service::list(&ws, Some("conventions"), true, &Ok(documents)).unwrap();
    assert_eq!(listed.len(), 1);
    assert_eq!(listed[0].path, "docs/conventions/code_style.md");

    let plan = namespace_service::rename("conventions", "engineering", &ws, true, false).unwrap();
    assert_eq!(plan.renamed.path, "docs/engineering");
    let error = plan.failure("denied");
    assert_eq!(error.details[0].value, "docs/conventions -> docs/engineering");
    let error = namespace_service::rename("conventions", "engineering", &ws, true, true).unwrap_err();
    assert_eq!(error.message, "target namespace already exists");
}

#[test]
fn tree_draws_branches_for_several_entries() {
    let documents = scan(
        "docs",
        &[
            ("", "overview", OVERVIEW),
            ("a", "one", "# one\n\n本文说明 One。\n"),
            ("a", "two", "# two\n\n本文说明 Two。\n"),
        ],
    );
    let tree = tree("docs", &documents, &vec!["a".to_string(), "b".to_string()]);
    assert_eq!(
        tree,
        "docs/\n|-- a/\n|   |-- one.md - 本文说明 One。\n|   `-- two.md - 本文说明 Two。\n|-- b/\n`-- overview.md - 本文说明 Root overview。"
    );
}

#[test]
fn output_text_for_each_result() {
    assert_eq!(format_success(&CommandOutput::Fix(Vec::new())), "OK\n");
    assert_eq!(format_success(&CommandOutput::Documents(Vec::new())), "");
    assert_eq!(format_success(&CommandOutput::Tree("a\n".to_string())), "a\n");
    assert_eq!(format_success(&CommandOutput::Tree("a".to_string())), "a\n");
    assert_eq!(format_success(&CommandOutput::RawText("help".to_string())), "help");
    let init = agents_docs_manager::utils::workspace::InitOutput {
        index_path: "docs.json".to_string(),
        documents_directory: "./docs".to_string(),
        naming_style: "snake_case".to_string(),
    };
    assert_eq!(
        format_success(&CommandOutput::WorkspaceInit(init)),
        "index_path docs.json\ndoc_dir ./docs\nnaming_style snake_case\n"
    );
    let ws = found("./docs", "snake_case").unwrap();
    let rules = agents_docs_manager::utils::workspace::workspace_rules(
        &ws.workspace,
        vec![agents_docs_manager::utils::workspace::WorkspaceRule::new("AGENTS.md".to_string(), "rules".to_string())],
    );
    assert_eq!(
        format_success(&CommandOutput::WorkspaceRules(rules)),
        "agents_file AGENTS.md\ndocuments_directory docs\nindex_file docs.json\nrepository /repo\nrules[0].content rules\nrules[0].path AGENTS.md\n"
    );
    let error = invalid_command("error: unrecognized subcommand 'ns'\n\nUsage: adm\n");
    assert_eq!(error_text(&error), "error: invalid_command: error: unrecognized subcommand 'ns'\n\nUsage: adm\n");
    assert_eq!(
        agents_docs_manager::utils::workspace::rule_directories_of("/repo", "/repo/src/nested"),
        vec!["/repo".to_string(), "/repo/src".to_string(), "/repo/src/nested".to_string()]
    );
}

#[test]
fn short_commands_fail_with_normal_cli_error() {
    let error = invalid_command("error: unrecognized subcommand 'ns'\n\nUsage: adm <COMMAND>\n");
    assert_eq!(error.exit_code, 2);
    assert!(has_line(&error_text(&error), "error: invalid_command: error: unrecognized subcommand 'ns'"));
}

#[test]
fn namespace_list_uses_normal_cli_output() {
    let ws = found("./docs", "snake_case");
    let names = Ok(vec!["conventions".to_string()]);
    let summaries = namespace_service::list(&ws, &names).unwrap();
    let rows = agents_docs_manager::cli::namespace_rows(&summaries);
    let output = format_success(&CommandOutput::Namespaces(rows));
    assert!(serde_json::from_str::<serde_json::Value>(&output).is_err());
}

const PROJECT_OVERVIEW: &str = "# overview\n\n本文说明 Project overview。\n";

#[test]
fn docs_list_shows_root_documents_before_namespaced_ones() {
    let ws = found("./docs", "snake_case");
    let documents = scan("docs", &[("", "overview", PROJECT_OVERVIEW), ("conventions", "code_style", CODE_STYLE)]);
    let listed = document_service::list(&ws, None, false, &Ok(documents)).unwrap();
    let shown: Vec<(String, String)> = listed.iter().map(|d| (d.document.clone(), d.path.clone())).collect();
    assert_eq!(
        shown,
        vec![
            ("overview".to_string(), "docs/overview.md".to_string()),
            ("code_style".to_string(), "docs/conventions/code_style.md".to_string()),
        ]
    );
    let rows = agents_docs_manager::cli::document_rows(&listed);
    assert_eq!(
        format_success(&CommandOutput::Documents(rows)),
        "overview docs/overview.md\ncode_style docs/conventions/code_style.md\n"
    );
}

#[test]
fn tree_shows_namespaces_before_root_documents() {
    let documents = scan("docs", &[("", "overview", PROJECT_OVERVIEW), ("conventions", "code_style", CODE_STYLE)]);
    let tree = tree("docs", &documents, &vec!["conventions".to_string()]);
    assert_eq!(
        tree.lines().collect::<Vec<_>>(),
        vec![
            "docs/",
            "|-- conventions/",
            "|   `-- code_style.md - 本文说明 Rust code style conventions。",
            "`-- overview.md - 本文说明 Project overview。",
        ]
    );
}

fn candidate(directory: &str, has_index: bool) -> agents_docs_manager::utils::workspace::RootCandidate {
    agents_docs_manager::utils::workspace::RootCandidate { directory: directory.to_string(), has_index }
}

#[test]
fn commands_find_root_from_subdirectory_using_docs_json() {
    let from_nested = vec![
        candidate("/repo/src/nested", false),
        candidate("/repo/src", false),
        candidate("/repo", true),
        candidate("/", false),
    ];
    let root = agents_docs_manager::utils::workspace::find_root_from(&from_nested).unwrap();
    assert_eq!(root, "/repo");

    let ws = found("./docs", "snake_case");
    let names = Ok(vec!["conventions".to_string()]);
    let summaries = namespace_service::list(&ws, &names).unwrap();
    let rows = agents_docs_manager::cli::namespace_rows(&summaries);
    assert!(has_line(&format_success(&CommandOutput::Namespaces(rows)), "conventions docs/conventions"));

    let nested_root = vec![candidate("/repo/sub", true), candidate("/repo", true)];
    assert_eq!(agents_docs_manager::utils::workspace::find_root_from(&nested_root).unwrap(), "/repo/sub");

    let nowhere = vec![candidate("/tmp/x", false), candidate("/", false)];
    let error = agents_docs_manager::utils::workspace::find_root_from(&nowhere).unwrap_err();
    assert_eq!(error.code, "workspace_not_initialized");
}
