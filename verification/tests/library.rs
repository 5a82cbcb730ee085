use akuna_core::detection::{detection_extraction_error, MagikaInferenceError};
use akuna_core::extraction::code::{code_document_from_ranges, extract_text_document};
use akuna_core::extraction::office::{push_office_paragraph, structured_office_line_kind};
use akuna_core::extraction::{ExtractionMetadata, FileExtractionError};
use akuna_core::ocr::glm::{
    glm_ocr_text_dims, glm_ocr_vision_dims, text_layer_weight_shapes, vision_block_weight_shapes,
};
use akuna_core::ocr::pp_ocr::{DictScanner, DictionaryError};
use akuna_core::reranking::JinaV2RerankerVariant;
use akuna_core::ocr::{block_fragments, OcrBlock, OcrBlockKind};
use akuna_core::storage::graph::GraphTarget;
use akuna_core::syntax::{code_part_ranges, syntax_tree, CodePartRange, Grammar};

fn metadata(extension: Option<&str>) -> ExtractionMetadata {
    ExtractionMetadata {
        stem: Some("main".to_owned()),
        extension: extension.map(str::to_owned),
        label: "rust".to_owned(),
        mime_type: "text/x-rust".to_owned(),
        description: "Rust source".to_owned(),
        is_text: true,
    }
}

#[test]
fn official_glm_dimensions() {
    let vision = glm_ocr_vision_dims();
    assert_eq!((vision.layers, vision.hidden_size, vision.heads, vision.merge_size), (24, 1024, 16, 2));
    assert_eq!(vision.patch_width(), 3 * 2 * 14 * 14);
    let text = glm_ocr_text_dims();
    assert_eq!((text.layers, text.vocab_size, text.kv_heads, text.head_dim), (16, 59_392, 8, 128));
}

#[test]
fn layer_weight_shapes_are_named_by_layer() {
    let vision = vision_block_weight_shapes(7);
    assert_eq!(vision.len(), 14);
    assert_eq!(vision[0], ("model.visual.blocks.7.norm1.weight".to_owned(), vec![1024]));
    assert_eq!(vision[4], ("model.visual.blocks.7.attn.qkv.weight".to_owned(), vec![3072, 1024]));
    let text = text_layer_weight_shapes(12);
    assert_eq!(text[0], ("model.language_model.layers.12.input_layernorm.weight".to_owned(), vec![1536]));
    assert_eq!(text[4], ("model.language_model.layers.12.self_attn.q_proj.weight".to_owned(), vec![2048, 1536]));
}

#[test]
fn page_fragments_are_trimmed_and_not_blank() {
    let blocks = vec![
        OcrBlock { text: " first ".to_owned(), kind: OcrBlockKind::Text },
        OcrBlock { text: "   ".to_owned(), kind: OcrBlockKind::Text },
        OcrBlock { text: "second\n".to_owned(), kind: OcrBlockKind::Unknown },
    ];
    assert_eq!(block_fragments(&blocks), vec!["first".to_owned(), "second".to_owned()]);
}

#[test]
fn graph_node_target_lists_its_labels() {
    let target = GraphTarget::Node { labels: vec!["Person".to_owned(), "Author".to_owned()], id: "p1".to_owned() };
    assert_eq!(target.describe(), "node 'p1' with labels '[\"Person\", \"Author\"]'");
    let edge = GraphTarget::Edge {
        predicate: "WROTE".to_owned(),
        source_id: "p1".to_owned(),
        target_id: "b1".to_owned(),
    };
    assert_eq!(edge.describe(), "edge 'WROTE' from 'p1' to 'b1'");
}

#[test]
fn detection_failures_name_the_engine() {
    let error = detection_extraction_error(MagikaInferenceError::Runtime("boom".to_owned()));
    assert!(matches!(error, FileExtractionError::DetectionEngine { engine: "magika" }));
}

#[test]
fn office_lines_and_paragraphs() {
    assert_eq!(structured_office_line_kind("# Title"), Some("heading".to_owned()));
    assert_eq!(structured_office_line_kind("Source: web"), Some("caption".to_owned()));
    assert_eq!(structured_office_line_kind("---"), Some("unknown".to_owned()));
    assert_eq!(structured_office_line_kind("text"), None);

    let mut blocks = vec![("heading".to_owned(), "# Title".to_owned())];
    let mut paragraph = vec!["one".to_owned(), "two".to_owned()];
    push_office_paragraph(&mut blocks, &mut paragraph);
    assert_eq!(blocks[1], ("paragraph".to_owned(), "one\ntwo".to_owned()));
    assert!(paragraph.is_empty());
    push_office_paragraph(&mut blocks, &mut paragraph);
    assert_eq!(blocks.len(), 2);
}

#[test]
fn dictionary_scanner_reads_the_character_list() {
    let mut scanner = DictScanner {
        in_postprocess: false,
        postprocess_indent: 0,
        character_dict_indent: 0,
        in_character_dict: false,
        done: false,
        failed: false,
        dictionary: Vec::new(),
    };
    for line in ["PostProcess:", "  name: CTCLabelDecode", "  character_dict:", "    - a", "    - 'b'"] {
        scanner.scan_line(line);
    }
    assert_eq!(scanner.dictionary, vec!["a".to_owned(), "b".to_owned()]);
    assert!(!scanner.failed);
}

#[test]
fn code_documents_keep_non_blank_ranges() {
    let text = "fn a() {}\n\n  \nfn b() {}\n";
    let ranges = vec![
        CodePartRange { kind: "function_item".to_owned(), start: 0, end: 9 },
        CodePartRange { kind: "blank".to_owned(), start: 10, end: 14 },
        CodePartRange { kind: "function_item".to_owned(), start: 14, end: 23 },
    ];
    let document = code_document_from_ranges(text, &ranges, Some("rs")).expect("two parts");
    assert_eq!(document.canonical_text.as_deref(), Some(text));
    let parts: Vec<_> = document.parts.iter().map(|p| (p.index, p.text.clone().unwrap())).collect();
    assert_eq!(parts, vec![(0, "fn a() {}".to_owned()), (2, "fn b() {}".to_owned())]);
    let provenance = document.parts[0].provenance.as_ref().unwrap();
    assert_eq!(provenance.method, "tree_sitter");
    assert_eq!(provenance.engines, vec!["tree-sitter-rs".to_owned()]);
    let single = vec![CodePartRange { kind: "function_item".to_owned(), start: 0, end: 9 }];
    assert!(code_document_from_ranges(text, &single, Some("rs")).is_none());

    let plain = extract_text_document("just words".to_owned(), &metadata(Some("unknownext")));
    assert!(plain.canonical_text.is_none());
    assert_eq!(plain.parts[0].kind, "text");
}

#[test]
fn parsing_is_a_function_of_text_and_grammar() {
    let text = "fn a() {}\nstruct B;\n";
    let first = syntax_tree(text, Grammar::Rust).expect("tree");
    let second = syntax_tree(text, Grammar::Rust).expect("tree");
    assert!(!first.has_error);
    assert_eq!(first.root.kind, "source_file");
    assert_eq!((first.root.start, first.root.end), (second.root.start, second.root.end));
    assert_eq!(first.root.children.len(), 2);
    assert_eq!(first.root.children[0].kind, second.root.children[0].kind);
    let ranges = code_part_ranges(text, Some("rs")).expect("ranges");
    let kinds: Vec<_> = ranges.iter().map(|r| (r.kind.clone(), r.start, r.end)).collect();
    assert_eq!(kinds, vec![("function_item".to_owned(), 0, 9), ("struct_item".to_owned(), 10, 19)]);
    assert!(code_part_ranges(text, Some("zzz")).is_none());
    assert!(code_part_ranges("fn (", Some("rs")).is_none());
}

#[test]
fn dictionary_errors_and_default_reranker() {
    assert_eq!(
        DictionaryError::MissingCharacterDict.message(),
        "PaddleOCR recognizer inference.yml missing PostProcess.character_dict"
    );
    assert_eq!(DictionaryError::UnsupportedInlineList.message(), "unsupported inline character_dict YAML value");
    assert_eq!(JinaV2RerankerVariant::default(), JinaV2RerankerVariant::BaseMultilingual);
}
