use agents_docs_manager::utils::paths::{
    build_document_path, normalize_document_name, path_components_of, relative_path_from_root,
    validate_namespace,
};
use agents_docs_manager::utils::workspace::{display_path, relative_path, workspace_from_index};
use agents_docs_manager::utils::index::DocsIndex;

#[test]
fn normalizes_md_suffix_and_builds_document_path() {
    let document = normalize_document_name("CODE_STYLE.md").unwrap();
    let path = build_document_path("Docs", "Conventions", &document);
    assert_eq!(path.namespace, "Conventions");
    assert_eq!(path.document_stem, "CODE_STYLE");
    assert_eq!(path.relative_path, "Docs/Conventions/CODE_STYLE.md");

    let root_path = build_document_path("Docs", "", &document);
    assert_eq!(root_path.namespace, "");
    assert_eq!(root_path.relative_path, "Docs/CODE_STYLE.md");
}

#[test]
fn rejects_path_traversal() {
    assert!(validate_namespace("..").is_err());
    assert!(normalize_document_name("../CODE_STYLE").is_err());
    assert!(normalize_document_name(".hidden").is_err());
}

#[test]
fn namespace_and_document_refusals_say_why() {
    assert_eq!(validate_namespace("").unwrap_err().message, "namespace must not be empty");
    assert_eq!(validate_namespace("a/b").unwrap_err().message, "namespace must be a single path segment");
    assert_eq!(validate_namespace(".x").unwrap_err().message, "namespace must not start with a dot");
    assert_eq!(normalize_document_name(".md").unwrap_err().message, "document must not start with a dot");
    assert_eq!(normalize_document_name("a\\b").unwrap_err().message, "document must be a single path segment");
    let error = normalize_document_name("").unwrap_err();
    assert_eq!(error.code, "invalid_document_name");
    assert_eq!(error.exit_code, 2);
    assert_eq!(error.details[0].path, "document");
    assert_eq!(normalize_document_name("readme").unwrap(), "readme");
}

#[test]
fn document_file_name_reads_back_as_its_stem() {
    let path = build_document_path("docs", "guides", "setup");
    assert_eq!(path.file_name, "setup.md");
    assert_eq!(normalize_document_name(&path.file_name).unwrap(), "setup");
    assert_eq!(path.to_path_buf(), "docs/guides/setup.md");
}

#[test]
fn relative_paths_drop_the_root() {
    assert_eq!(relative_path_from_root("/repo", "/repo/docs/conventions"), "docs/conventions");
    assert_eq!(relative_path_from_root("/repo/", "/repo//docs/./a"), "docs/a");
    assert_eq!(relative_path_from_root("/other", "/repo/docs"), "//repo/docs");
    assert_eq!(path_components_of("./a//b/"), vec![".".to_string(), "a".to_string(), "b".to_string()]);
    let index = DocsIndex::new("./docs".to_string(), "snake_case".to_string());
    let workspace = workspace_from_index("/repo", &index).unwrap();
    assert_eq!(workspace.documents_directory, "/repo/docs");
    assert_eq!(workspace.agents_file, "/repo/AGENTS.md");
    assert_eq!(workspace.index_file, "/repo/docs.json");
    assert_eq!(workspace.documents_directory_name, "docs");
    assert_eq!(relative_path(&workspace, "/repo/AGENTS.md"), "AGENTS.md");
    assert_eq!(display_path("/repo"), "/repo");
}
