use agents_docs_manager::utils::index::{
    DirEntry, DocsIndex, ScanItem, document_stems_from_entries, documents_from_scan,
    index_from_json, index_not_found_error, namespaces_from_entries, validate_config_path,
    validate_index,
};
use agents_docs_manager::utils::naming::{
    convert_name_to_naming_style, infer_naming_style_from_name, naming_style_regex,
    naming_style_uses_uppercase_doc_dir,
};

fn entry(name: &str, is_dir: bool) -> DirEntry {
    DirEntry { name: name.to_string(), is_dir, is_file: !is_dir }
}

#[test]
fn index_uses_provided_naming_style() {
    let index = DocsIndex::new("./docs".to_string(), "snake_case".to_string());
    assert_eq!(index.index_file, "./AGENTS.md");
    assert_eq!(index.doc_dir, "./docs");
    assert_eq!(index.naming_style, "snake_case");
}

#[test]
fn infers_naming_style_from_workspace_name() {
    assert_eq!(infer_naming_style_from_name("cloud_engine"), "snake_case");
    assert_eq!(infer_naming_style_from_name("cloud-engine"), "kebab-case");
    assert_eq!(infer_naming_style_from_name("CloudEngine"), "PascalCase");
    assert_eq!(infer_naming_style_from_name("cloudEngine"), "camelCase");
    assert_eq!(infer_naming_style_from_name("CLOUD_ENGINE"), "SCREAMING_SNAKE_CASE");
}

#[test]
fn converts_names_to_supported_naming_styles() {
    assert_eq!(convert_name_to_naming_style("CodeStyle", "snake_case").unwrap(), "code_style");
    assert_eq!(convert_name_to_naming_style("CODE_STYLE", "camelCase").unwrap(), "codeStyle");
    assert_eq!(convert_name_to_naming_style("code-style", "PascalCase").unwrap(), "CodeStyle");
    assert_eq!(
        convert_name_to_naming_style("codeStyle", "SCREAMING_SNAKE_CASE").unwrap(),
        "CODE_STYLE"
    );
}

#[test]
fn rejects_workspace_config_paths_that_escape_the_repository() {
    assert!(validate_config_path("doc_dir", "./docs").is_ok());
    assert!(validate_config_path("index_file", "nested/AGENTS.md").is_ok());

    for path in [
        "",
        ".",
        "..",
        "../docs",
        "docs/../outside",
        "..\\docs",
        "docs\\..\\outside",
        "\\absolute",
        "C:\\absolute",
        "C:relative",
    ] {
        assert!(validate_config_path("doc_dir", path).is_err(), "path should be rejected: {path}");
    }
}

#[test]
fn config_path_error_names_the_field() {
    let error = validate_config_path("doc_dir", "../docs").unwrap_err();
    assert_eq!(error.code, "invalid_workspace_config");
    assert_eq!(error.message, "workspace config path must be relative");
    assert_eq!(error.exit_code, 2);
    assert_eq!(error.details.len(), 1);
    assert_eq!(error.details[0].path, "doc_dir");
    assert_eq!(error.details[0].value, "../docs");
}

#[test]
fn naming_style_regex_gives_each_pattern() {
    assert_eq!(naming_style_regex("snake_case").unwrap(), "[a-z][a-z0-9_]*");
    assert_eq!(naming_style_regex("PaselCase").unwrap(), "[A-Z][A-Za-z0-9]*");
    assert_eq!(naming_style_regex("camalCase").unwrap(), "[a-z][A-Za-z0-9]*");
    assert_eq!(naming_style_regex("kebab-case").unwrap(), "[a-z][a-z0-9-]*");
    assert_eq!(naming_style_regex("screaming_snake_case").unwrap(), "[A-Z][A-Z0-9_]*");
    let error = naming_style_regex("Title Case").unwrap_err();
    assert_eq!(error.code, "invalid_naming_style");
    assert_eq!(error.exit_code, 2);
    assert_eq!(error.details[0].path, "naming_style");
    assert_eq!(error.details[0].value, "Title Case");
    assert_eq!(error.details[1].path, "supported[0]");
    assert_eq!(error.details[1].value, "snake_case");
}

#[test]
fn uppercase_styles_use_uppercase_documents_directory() {
    assert!(naming_style_uses_uppercase_doc_dir("PascalCase"));
    assert!(naming_style_uses_uppercase_doc_dir("SCREAMING_SNAKE_CASE"));
    assert!(!naming_style_uses_uppercase_doc_dir("snake_case"));
    assert!(!naming_style_uses_uppercase_doc_dir("camelCase"));
}

#[test]
fn converting_to_snake_case_twice_changes_nothing() {
    let once = convert_name_to_naming_style("HTTPServerConfig2", "snake_case").unwrap();
    assert_eq!(once, "http_server_config2");
    let twice = convert_name_to_naming_style(&once, "snake_case").unwrap();
    assert_eq!(twice, once);
    let once = convert_name_to_naming_style("apiGuides", "kebab-case").unwrap();
    assert_eq!(once, "api-guides");
    assert_eq!(convert_name_to_naming_style(&once, "kebab-case").unwrap(), once);
}

#[test]
fn converting_refuses_names_without_words_and_unknown_styles() {
    let error = convert_name_to_naming_style("--", "snake_case").unwrap_err();
    assert_eq!(error.code, "invalid_document_name");
    assert_eq!(error.message, "document name cannot be converted to naming_style");
    assert_eq!(error.exit_code, 1);
    let error = convert_name_to_naming_style("code", "Title").unwrap_err();
    assert_eq!(error.code, "invalid_naming_style");
}

#[test]
fn index_read_failures() {
    let error = index_not_found_error();
    assert_eq!(error.code, "workspace_index_not_found");
    assert_eq!(error.details[0].path, "path");
    assert_eq!(error.details[0].value, "docs.json");

    let error = index_from_json("docs.json", Err("unknown field `doc_type`".to_string())).unwrap_err();
    assert_eq!(error.code, "invalid_workspace_index");
    assert_eq!(error.message, "docs.json is not valid JSON");
    assert_eq!(error.details[1].value, "unknown field `doc_type`");

    let index = DocsIndex::new("./docs".to_string(), "snake_case".to_string());
    let read = index_from_json("docs.json", Ok(index)).unwrap();
    assert_eq!(read.doc_dir, "./docs");

    let bad = DocsIndex::new("../docs".to_string(), "snake_case".to_string());
    let error = index_from_json("docs.json", Ok(bad)).unwrap_err();
    assert_eq!(error.code, "invalid_workspace_config");
    assert_eq!(error.details[0].path, "doc_dir");

    let unknown = DocsIndex::new("./docs".to_string(), "Title".to_string());
    assert_eq!(validate_index(&unknown).unwrap_err().code, "invalid_naming_style");
}

#[test]
fn namespaces_are_valid_directories_sorted() {
    let entries = vec![
        entry("zeta", true),
        entry(".hidden", true),
        entry("alpha", true),
        entry("notes.md", false),
    ];
    assert_eq!(namespaces_from_entries(&entries), vec!["alpha".to_string(), "zeta".to_string()]);
}

#[test]
fn document_stems_are_markdown_files_sorted() {
    let entries = vec![
        entry("b.md", false),
        entry("a.md", false),
        entry("dir.md", true),
        entry("readme.txt", false),
    ];
    assert_eq!(
        document_stems_from_entries(&entries).unwrap(),
        vec!["a".to_string(), "b".to_string()]
    );
    let error = document_stems_from_entries(&vec![entry(".md", false)]).unwrap_err();
    assert_eq!(error.code, "invalid_document_name");
    assert_eq!(error.message, "document must not start with a dot");
}

#[test]
fn scanned_documents_are_sorted_by_path() {
    let items = vec![
        ScanItem::Document {
            namespace: "zeta".to_string(),
            stem: "a".to_string(),
            content: Ok("# a\n\n本文说明 A。\n".to_string()),
        },
        ScanItem::Document {
            namespace: String::new(),
            stem: "root".to_string(),
            content: Ok("# Root\n\n本文说明 Root。\n".to_string()),
        },
    ];
    let documents = documents_from_scan("docs", &items).unwrap();
    assert_eq!(documents.len(), 2);
    assert_eq!(documents[0].path, "docs/root.md");
    assert_eq!(documents[0].title, "Root");
    assert_eq!(documents[1].path, "docs/zeta/a.md");
    assert_eq!(documents[1].description, "本文说明 A。");
}

#[test]
fn check_rejects_existing_document_without_metadata_pattern() {
    let items = vec![ScanItem::Document {
        namespace: "conventions".to_string(),
        stem: "code_style".to_string(),
        content: Ok("# code_style\n\nRust code style conventions.\n".to_string()),
    }];
    let error = documents_from_scan("docs", &items).unwrap_err();
    let text = agents_docs_manager::utils::output::format_error(&error);
    assert!(text.lines().any(|l| l
        == "error: invalid_document_metadata: document metadata paragraph must match: 本文说明<description>。"));
    assert!(text.lines().any(|l| l == "details.path: docs/conventions/code_style.md"));
}

#[test]
fn docs_json_rejects_unknown_fields() {
    let parsed = Err("unknown field `namespaces`, expected one of `index_file`, `doc_dir`, `naming_style` at line 5 column 14".to_string());
    let error = index_from_json("docs.json", parsed).unwrap_err();
    assert_eq!(error.exit_code, 2);
    let text = agents_docs_manager::utils::output::format_error(&error);
    assert!(text.lines().any(|line| line == "error: invalid_workspace_index: docs.json is not valid JSON"));
}

#[test]
fn docs_json_rejects_old_doc_type_field() {
    let parsed = Err("unknown field `doc_type`, expected one of `index_file`, `doc_dir`, `naming_style` at line 4 column 12".to_string());
    let error = index_from_json("docs.json", parsed).unwrap_err();
    assert_eq!(error.exit_code, 2);
    let text = agents_docs_manager::utils::output::format_error(&error);
    assert!(text.lines().any(|line| line == "error: invalid_workspace_index: docs.json is not valid JSON"));
}

#[test]
fn converted_names_have_the_shape_of_their_style() {
    let cases = [
        ("snake_case", "http_server_config_v2"),
        ("kebab-case", "http-server-config-v2"),
        ("SCREAMING_SNAKE_CASE", "HTTP_SERVER_CONFIG_V2"),
        ("PascalCase", "HttpServerConfigV2"),
        ("camelCase", "httpServerConfigV2"),
    ];
    for (style, expected) in cases {
        let converted = convert_name_to_naming_style("HTTPServer config-v2", style).unwrap();
        assert_eq!(converted, expected);
        assert!(converted.chars().all(|c| c.is_ascii_alphanumeric() || c == '_' || c == '-'));
    }
}

#[test]
fn converted_names_pass_the_naming_check() {
    for style in ["snake_case", "kebab-case", "SCREAMING_SNAKE_CASE", "PascalCase", "camelCase"] {
        let config = agents_docs_manager::namespace::config::NamespaceConfig { naming_style_regex: naming_style_regex(style).unwrap() };
        let converted = convert_name_to_naming_style("Code Style v2", style).unwrap();
        assert!(agents_docs_manager::namespace::config::validate_document_name("conventions", &converted, &config).is_ok());
        assert!(agents_docs_manager::namespace::config::validate_namespace_name_style(&converted, &config).is_ok());
    }
}
