use agents_docs_manager::utils::markdown::{DocumentMetadataError, extract_metadata};

#[test]
fn extracts_required_title_and_metadata_description() {
    let content = "# 代码规范\n\n本文说明 Rust 代码规范。\n\n## 适用范围\n";
    let metadata = extract_metadata(content).unwrap();
    assert_eq!(metadata.title, "代码规范");
    assert_eq!(metadata.description, "本文说明 Rust 代码规范。");
}

#[test]
fn rejects_freeform_description() {
    let content = "# CODE_STYLE\n\nRust code style conventions.\n";
    let error = extract_metadata(content).unwrap_err();
    assert_eq!(error, DocumentMetadataError::InvalidDescription);
}

#[test]
fn rejects_missing_title_and_paragraph() {
    assert_eq!(
        extract_metadata("CODE_STYLE\n\n本文说明 X。\n").unwrap_err(),
        DocumentMetadataError::MissingTitle
    );
    assert_eq!(extract_metadata("#   \n").unwrap_err(), DocumentMetadataError::MissingTitle);
    assert_eq!(
        extract_metadata("# Title\n\n\n").unwrap_err(),
        DocumentMetadataError::MissingDescription
    );
    assert_eq!(
        extract_metadata("# Title\n\n本文说明。\n").unwrap_err(),
        DocumentMetadataError::InvalidDescription
    );
    assert_eq!(
        DocumentMetadataError::MissingDescription.message(),
        "document must include a metadata paragraph after the title"
    );
}

#[test]
fn paragraph_lines_are_joined_with_a_space() {
    let metadata = extract_metadata("  # Title  \n\n  本文说明 one\n  two。  \n\nbody\n").unwrap();
    assert_eq!(metadata.title, "Title");
    assert_eq!(metadata.description, "本文说明 one two。");
}

#[test]
fn written_header_reads_back() {
    let title = "Guide";
    let description = "本文说明 the guide。";
    for rest in ["", "\n## Body\n"] {
        let content = format!("# {title}\n\n{description}\n{rest}");
        let metadata = extract_metadata(&content).unwrap();
        assert_eq!(metadata.title, title);
        assert_eq!(metadata.description, description);
    }
}
