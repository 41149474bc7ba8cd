use agents_docs_manager::namespace::config::{
    NamespaceConfig, all_invalid_namespaces, invalid_documents_for_regex, namespace_dir,
    validate_document_name, validate_namespace_name_style,
};

#[test]
fn regex_matches_complete_document_stem() {
    let config = NamespaceConfig { naming_style_regex: "[A-Z][A-Z0-9_]*".to_string() };
    assert!(validate_document_name("Conventions", "CODE_STYLE", &config).is_ok());
    assert!(validate_document_name("Conventions", "CODE_STYLE_extra", &config).is_err());
    assert!(validate_document_name("Conventions", "code-style", &config).is_err());
}

#[test]
fn document_name_refusal_names_namespace_and_pattern() {
    let config = NamespaceConfig { naming_style_regex: "[a-z][a-z0-9_]*".to_string() };
    let error = validate_document_name("conventions", "code-style", &config).unwrap_err();
    assert_eq!(error.code, "invalid_document_name");
    assert_eq!(error.message, "document name does not match naming_style");
    assert_eq!(error.exit_code, 1);
    let paths: Vec<&str> = error.details.iter().map(|d| d.path.as_str()).collect();
    assert_eq!(paths, vec!["document", "namespace", "naming_style_regex"]);
    assert_eq!(error.details[0].value, "code-style");
}

#[test]
fn namespace_style_is_checked_on_the_whole_name() {
    let config = NamespaceConfig { naming_style_regex: "[a-z][a-z0-9_]*".to_string() };
    assert!(validate_namespace_name_style("conventions", &config).is_ok());
    let error = validate_namespace_name_style("Conventions", &config).unwrap_err();
    assert_eq!(error.code, "invalid_namespace_name");
}

#[test]
fn a_pattern_that_does_not_compile_is_refused() {
    let config = NamespaceConfig { naming_style_regex: "[a-".to_string() };
    let error = validate_document_name("", "x", &config).unwrap_err();
    assert_eq!(error.code, "invalid_document_name_regex");
    assert_eq!(error.message, "document_name_regex is not a valid regex");
    assert_eq!(error.details[0].value, "[a-");
    assert_eq!(error.details[1].path, "source");
    assert!(!error.details[1].value.is_empty());
}

#[test]
fn invalid_names_are_collected_in_order() {
    let stems = vec!["RootGuide".to_string(), "ok_name".to_string(), "Other".to_string()];
    let invalid = invalid_documents_for_regex("", "[a-z][a-z0-9_]*", &stems).unwrap();
    assert_eq!(invalid.len(), 2);
    assert_eq!(invalid[0].document, "RootGuide");
    assert_eq!(invalid[1].document, "Other");
    assert_eq!(invalid[1].naming_style_regex, "[a-z][a-z0-9_]*");
    let namespaces = Ok(vec!["Conventions".to_string(), "design".to_string()]);
    let invalid = all_invalid_namespaces("[a-z][a-z0-9_]*", &namespaces).unwrap();
    assert_eq!(invalid.len(), 1);
    assert_eq!(invalid[0].namespace, "Conventions");
    let index = agents_docs_manager::utils::index::DocsIndex::new("./docs".to_string(), "snake_case".to_string());
    let workspace = agents_docs_manager::utils::workspace::workspace_from_index("/repo", &index).unwrap();
    assert_eq!(namespace_dir(&workspace, "design"), "/repo/docs/design");
}
