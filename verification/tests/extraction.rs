use akuna_core::extraction::code::extract_code_document;
use akuna_core::extraction::document::ExtractedDocument;
use akuna_core::extraction::mime::{
    extension_mime, is_image_mime, is_office_document_mime, is_structured_text_mime,
};
use akuna_core::extraction::office::{office_document, structured_office_parts};
use akuna_core::extraction::segments::derive_part_chunking;
use akuna_core::extraction::{
    assemble_extraction, content_from_ocr_page, extract_bytes, extraction_needs,
    metadata_only_config, parts_config, ExtractionConfig, ExtractionMetadata, FileExtractionError,
    SourceHint,
};
use akuna_core::ocr::{OcrBlock, OcrBlockKind, OcrPage};

#[test]
fn validates_simple_byte_extraction() -> Result<(), FileExtractionError> {
    assert_eq!(extract_bytes(b"hello")?, b"hello");
    assert!(matches!(extract_bytes(b""), Err(FileExtractionError::NoContents)));

    Ok(())
}

#[test]
fn builds_parts_config() {
    let config = parts_config();

    assert!(config.return_metadata);
    assert!(!config.return_content);
    assert!(!config.return_part_segments);
    assert!(config.return_parts);
}

#[test]
fn metadata_only_config_reads_nothing() {
    let config = metadata_only_config();
    assert!(config.return_metadata);
    assert!(!config.return_content);
    assert!(!config.return_part_segments);
    assert!(!config.return_parts);
    let needs = extraction_needs(&config);
    assert!(needs.metadata);
    assert!(!needs.content);
    let needs = extraction_needs(&parts_config());
    assert!(needs.metadata && needs.content && !needs.part_segments);
}

#[test]
fn extension_hints_map_to_mime_types() {
    assert_eq!(extension_mime("pdf"), Some("application/pdf"));
    assert_eq!(extension_mime(".PDF"), Some("application/pdf"));
    assert_eq!(extension_mime("..Md"), Some("text/markdown"));
    assert_eq!(extension_mime("rs"), Some("text/plain"));
    assert_eq!(extension_mime("htm"), Some("text/html"));
    assert_eq!(extension_mime("rss"), Some("application/xml"));
    assert_eq!(extension_mime("webp"), None);
    assert_eq!(extension_mime(""), None);
}

#[test]
fn source_hint_prefers_mime_then_extension_then_file_name() {
    let hint = SourceHint {
        file_name: Some("report.final.DOCX".to_owned()),
        mime_type: None,
        extension: None,
    };
    assert_eq!(
        hint.preferred_mime(),
        Some("application/vnd.openxmlformats-officedocument.wordprocessingml.document")
    );
    let hint = SourceHint {
        file_name: Some("report.pdf".to_owned()),
        mime_type: None,
        extension: Some("txt".to_owned()),
    };
    assert_eq!(hint.preferred_mime(), Some("text/plain"));
    let hint = SourceHint {
        file_name: Some("report.pdf".to_owned()),
        mime_type: Some("image/png".to_owned()),
        extension: Some("txt".to_owned()),
    };
    assert_eq!(hint.preferred_mime(), Some("image/png"));
    let hint = SourceHint { file_name: Some("README".to_owned()), mime_type: None, extension: None };
    assert_eq!(hint.preferred_mime(), None);
}

#[test]
fn mime_classes() {
    assert!(is_image_mime("image/png"));
    assert!(!is_image_mime("image/webp"));
    assert!(is_office_document_mime("application/msword"));
    assert!(!is_office_document_mime("application/pdf"));
    assert!(is_structured_text_mime("text/markdown"));
    assert!(!is_structured_text_mime("text/plain"));
}

#[test]
fn plain_text_document_has_one_part() {
    let document = ExtractedDocument::from_text("hello".to_owned());
    assert!(document.canonical_text.is_none());
    assert_eq!(document.parts.len(), 1);
    let part = &document.parts[0];
    assert_eq!(part.kind, "text");
    assert_eq!(part.text.as_deref(), Some("hello"));
    let range = part.range.expect("range");
    assert_eq!((range.start, range.end), (0, 5));
    assert_eq!(document.text().as_deref(), Some("hello"));
    assert_eq!(document.into_content().text.as_deref(), Some("hello"));
}

#[test]
fn empty_text_document_has_no_text() {
    let document = ExtractedDocument::from_text(String::new());
    assert_eq!(document.text(), None);
}

fn block(text: &str) -> OcrBlock {
    OcrBlock { text: text.to_owned(), kind: OcrBlockKind::Text }
}

#[test]
fn ocr_page_content_joins_trimmed_blocks() {
    let page = OcrPage {
        width: 10,
        height: 10,
        blocks: vec![block("  first "), block("   "), block("séco\tnd\n")],
    };
    assert_eq!(content_from_ocr_page(&page).text.as_deref(), Some("first\n\nséco\tnd"));
    assert_eq!(page.plain_text(), "first\nséco\tnd");
    let document = ExtractedDocument::from_ocr_page(&page);
    assert_eq!(document.parts.len(), 2);
    assert_eq!(document.parts[1].index, 1);
    let second = document.parts[1].range.expect("range");
    assert_eq!((second.start, second.end), (7, 15));
    let empty = OcrPage { width: 1, height: 1, blocks: vec![block(" ")] };
    assert_eq!(content_from_ocr_page(&empty).text, None);
}

#[test]
fn office_text_splits_into_headings_captions_and_paragraphs() {
    let text = "# Title\n\nfirst line\nsecond line\nSource: web\n--- \nlast";
    let parts = structured_office_parts(text);
    let kinds: Vec<&str> = parts.iter().map(|part| part.kind.as_str()).collect();
    assert_eq!(kinds, vec!["heading", "paragraph", "caption", "paragraph"]);
    assert_eq!(parts[1].text.as_deref(), Some("first line\nsecond line"));
    let heading = parts[0].range.expect("heading range");
    assert_eq!((heading.start, heading.end), (0, 7));
    let paragraph = parts[1].range.expect("paragraph range");
    assert_eq!(&text[paragraph.start..paragraph.end], "first line\nsecond line");
    assert_eq!(parts[3].index, 3);
    let document = office_document(text.to_owned());
    assert_eq!(document.canonical_text.as_deref(), Some(text));
    assert_eq!(document.parts.len(), 4);
}

#[test]
fn office_paragraph_with_indented_lines_has_no_range() {
    let text = "# A\n  x\n  y";
    let parts = structured_office_parts(text);
    assert_eq!(parts.len(), 2);
    assert_eq!(parts[1].text.as_deref(), Some("x\ny"));
    assert!(parts[1].range.is_none());
}

#[test]
fn single_office_block_is_plain_text() {
    let document = office_document("just words".to_owned());
    assert!(document.canonical_text.is_none());
    assert_eq!(document.parts.len(), 1);
}

fn metadata(extension: Option<&str>) -> ExtractionMetadata {
    ExtractionMetadata {
        stem: Some("code".to_owned()),
        extension: extension.map(str::to_owned),
        label: "rust".to_owned(),
        mime_type: "text/plain".to_owned(),
        description: "Rust source".to_owned(),
        is_text: true,
    }
}

#[test]
fn code_document_has_one_part_per_function() {
    let text = "fn a() {}\nfn b() {}\n";
    let document = extract_code_document(text, &metadata(Some("rs"))).expect("code parts");
    assert_eq!(document.canonical_text.as_deref(), Some(text));
    assert_eq!(document.parts.len(), 2);
    assert_eq!(document.parts[0].kind, "function_item");
    assert_eq!(document.parts[1].text.as_deref(), Some("fn b() {}"));
    let provenance = document.parts[0].provenance.as_ref().expect("provenance");
    assert_eq!(provenance.method, "tree_sitter");
    assert_eq!(provenance.engines, vec!["tree-sitter-rs".to_owned()]);
    assert!(extract_code_document(text, &metadata(None)).is_none());
    assert!(extract_code_document(text, &metadata(Some("zzz"))).is_none());
}

#[test]
fn part_segments_cover_part_text() {
    let mut document = ExtractedDocument::from_text("aa.bb.cc".to_owned());
    let mut config = akuna_core::chunking::ChunkingConfig::default();
    config.target_size = Some(4);
    config.delimiters = Some(b".".to_vec());
    let parts = derive_part_chunking(std::mem::take(&mut document.parts), Some(&config), None);
    let segments = parts[0].segments.as_ref().expect("segments");
    let texts: Vec<&str> = segments.iter().map(|s| s.text.as_deref().unwrap()).collect();
    assert_eq!(texts, vec!["aa.", "bb.", "cc"]);
    let ranges: Vec<(usize, usize)> = segments
        .iter()
        .map(|s| {
            let r = s.range.unwrap();
            (r.start, r.end)
        })
        .collect();
    assert_eq!(ranges, vec![(0, 3), (3, 6), (6, 8)]);
}

#[test]
fn assembled_result_follows_config() {
    let config = ExtractionConfig { return_content: true, ..Default::default() };
    let document = ExtractedDocument::from_text("body".to_owned());
    let result = assemble_extraction(&config, Some(metadata(Some("txt"))), Some(document));
    assert_eq!(result.text.as_deref(), Some("body"));
    assert!(result.parts.is_none());
    assert!(result.metadata.is_some());
    let config = parts_config();
    let document = ExtractedDocument::from_text("body".to_owned());
    let result = assemble_extraction(&config, None, Some(document));
    assert!(result.text.is_none());
    assert_eq!(result.parts.expect("parts").len(), 1);
    let result = assemble_extraction(&metadata_only_config(), Some(metadata(None)), None);
    assert!(result.text.is_none() && result.parts.is_none() && result.metadata.is_some());
}

#[test]
fn part_segments_use_delimiters_keyed_by_label_or_mime_type() {
    let mut config = akuna_core::chunking::ChunkingConfig::default();
    config.target_size = Some(4);
    config.delimiters = Some(b".".to_vec());
    config.delimiters_by_ft = vec![("text/x-rust".to_owned(), b",".to_vec())];
    let mut by_mime = metadata(Some("txt"));
    by_mime.mime_type = "text/x-rust".to_owned();
    let document = ExtractedDocument::from_text("aa,bb,cc".to_owned());
    let parts = derive_part_chunking(document.parts, Some(&config), Some(&by_mime));
    let texts: Vec<String> =
        parts[0].segments.as_ref().unwrap().iter().map(|s| s.text.clone().unwrap()).collect();
    assert_eq!(texts, vec!["aa,", "bb,", "cc"]);

    config.delimiters_by_ft = vec![("text/x-rust".to_owned(), b",".to_vec()), ("label".to_owned(), b";".to_vec())];
    let mut by_label = by_mime;
    by_label.label = "label".to_owned();
    let document = ExtractedDocument::from_text("aa;bb;cc".to_owned());
    let parts = derive_part_chunking(document.parts, Some(&config), Some(&by_label));
    let texts: Vec<String> =
        parts[0].segments.as_ref().unwrap().iter().map(|s| s.text.clone().unwrap()).collect();
    assert_eq!(texts, vec!["aa;", "bb;", "cc"]);

    config.delimiters_by_ft = vec![("txt".to_owned(), b",".to_vec())];
    let mut other = metadata(Some("txt"));
    other.mime_type = "text/plain".to_owned();
    let document = ExtractedDocument::from_text("aa,bb.cc".to_owned());
    let parts = derive_part_chunking(document.parts, Some(&config), Some(&other));
    let texts: Vec<String> =
        parts[0].segments.as_ref().unwrap().iter().map(|s| s.text.clone().unwrap()).collect();
    assert_eq!(texts, vec!["aa,bb.", "cc"]);
}
