use akuna_core::ocr::components::{mask_components, region_large_enough, MaskComponent};
use akuna_core::ocr::glm::{
    build_single_image_position_ids, build_vision_position_ids, ceil_to_factor, decimal_string, floor_to_factor,
    next_decode_position, required_weight_shapes, resize_error, ResizeError, transpose_flattened_matrix,
    transpose_flattened_patch_weight, round_to_factor, GlmConfigError, GlmOcrConfig,
    GlmOcrVariant, PositionIdsError, PreprocessorConfig,
};
use akuna_core::ocr::prompt::{
    image_token_span, ocr_prompt_from_ids, ocr_prompt_text, prompt_image_tokens, PromptError,
};
use akuna_core::ocr::layout::{is_text_like_label, useful_ocr_fragment};
use akuna_core::ocr::pp_ocr::{
    ctc_decode_indices, detector_config, neighbors, parse_character_dict, parse_inline_yaml_list,
    parse_yaml_scalar, recognizer_config, static_shape, DictionaryError, PpOcrV6Tier,
};
use akuna_core::ocr::{full_page_block, useful_recognitions, select_pipeline, OcrBlockKind, OcrDetector, OcrError, OcrOptions, OcrPipeline, OcrRecognizer};

#[test]
fn variant_repo_id_returns_official_glm_ocr() {
    assert_eq!(GlmOcrVariant::OnnxCommunity.repo_id(), "zai-org/GLM-OCR");
}

#[test]
fn variant_revision_is_pinned() {
    assert_eq!(GlmOcrVariant::OnnxCommunity.revision(), "ca5d8b3e287e52589e37c28385d9655ee4372f9d");
}

#[test]
fn config_validation_accepts_matching_preprocessor() {
    GlmOcrConfig::for_test()
        .validate(&PreprocessorConfig::for_test())
        .expect("test config should validate");
}

#[test]
fn config_validation_reports_first_disagreement() {
    let mut config = GlmOcrConfig::for_test();
    config.image_token_id = config.image_start_token_id;
    assert_eq!(
        config.validate(&PreprocessorConfig::for_test()),
        Err(GlmConfigError::ImageTokenIsBoundary)
    );
    let mut config = GlmOcrConfig::for_test();
    config.text_config.pad_token_id = 59392;
    assert_eq!(
        config.validate(&PreprocessorConfig::for_test()),
        Err(GlmConfigError::PadTokenOutOfVocab)
    );
    let mut preprocessor = PreprocessorConfig::for_test();
    preprocessor.merge_size = 3;
    assert_eq!(
        GlmOcrConfig::for_test().validate(&preprocessor),
        Err(GlmConfigError::MergeSizeMismatch)
    );
    assert_eq!(
        GlmConfigError::PatchSizeMismatch.message(),
        "GLM OCR config/preprocessor patch sizes differ"
    );
}

#[test]
fn mrope_position_ids_match_single_image_grid() {
    let position_ids = build_single_image_position_ids(8, 2..6, [1, 4, 4], 2)
        .expect("position ids should build");

    assert_eq!(position_ids[0], vec![0, 1, 2, 2, 2, 2, 4, 5]);
    assert_eq!(position_ids[1], vec![0, 1, 2, 2, 3, 3, 4, 5]);
    assert_eq!(position_ids[2], vec![0, 1, 2, 3, 2, 3, 4, 5]);
}

#[test]
fn position_ids_reject_inconsistent_inputs() {
    assert_eq!(
        build_single_image_position_ids(8, 2..6, [1, 0, 4], 2),
        Err(PositionIdsError::NonPositiveGrid)
    );
    assert_eq!(
        build_single_image_position_ids(5, 2..6, [1, 4, 4], 2),
        Err(PositionIdsError::RangeExceedsSequence)
    );
    assert_eq!(
        build_single_image_position_ids(8, 2..6, [1, 4, 3], 2),
        Err(PositionIdsError::GridNotDivisible)
    );
    assert_eq!(
        build_single_image_position_ids(8, 2..5, [1, 4, 4], 2),
        Err(PositionIdsError::TokenCountMismatch)
    );
    assert_eq!(
        next_decode_position(&build_single_image_position_ids(8, 2..6, [1, 4, 4], 2).unwrap()),
        6
    );
    assert_eq!(next_decode_position(&[vec![], vec![], vec![]]), 1);
}

#[test]
fn official_weight_shapes_match_glm_ocr_dimensions() {
    let shapes = required_weight_shapes();

    assert_eq!(shapes.len(), 24 * 14 + 16 * 10 + 14);
    assert_eq!(shapes[0].1, vec![1024, 3, 2, 14, 14]);
    assert!(shapes.iter().any(|(name, shape)| {
        name == "model.language_model.layers.15.self_attn.o_proj.weight"
            && shape == &vec![1_536, 2_048]
    }));
    assert_eq!(shapes.last().expect("shapes should not be empty").1, vec![1_536, 4_608]);
}

#[test]
fn weight_names_number_their_layers() {
    let shapes = required_weight_shapes();
    assert_eq!(shapes[14].0, "model.visual.blocks.0.norm1.weight");
    assert_eq!(shapes[16].1, vec![64]);
    assert_eq!(shapes[14 + 14 * 23].0, "model.visual.blocks.23.norm1.weight");
    assert_eq!(decimal_string(0), "0");
    assert_eq!(decimal_string(1907), "1907");
}

#[test]
fn factors_round_values() {
    assert_eq!(round_to_factor(20, 14), 14);
    assert_eq!(round_to_factor(21, 14), 28);
    assert_eq!(round_to_factor(6, 14), 0);
    assert_eq!(round_to_factor(7, 14), 14);
    assert_eq!(ceil_to_factor(15, 14), 28);
    assert_eq!(ceil_to_factor(28, 14), 28);
    assert_eq!(floor_to_factor(27, 14), 14);
}

#[test]
fn pipelines_pair_detectors_with_recognizers() {
    let options = OcrOptions::default();
    assert_eq!(select_pipeline(&options), Ok(OcrPipeline::PpOcr(PpOcrV6Tier::Medium)));
    let options = OcrOptions {
        detector: OcrDetector::PpDocLayout,
        recognizer: OcrRecognizer::GlmOcr,
        cache_dir: None,
    };
    let pipeline = select_pipeline(&options).expect("supported");
    assert_eq!(pipeline.pipeline(), (OcrDetector::PpDocLayout, OcrRecognizer::GlmOcr));
    let options = OcrOptions {
        detector: OcrDetector::PpOcrV6TinyDet,
        recognizer: OcrRecognizer::PpOcrV6SmallRec,
        cache_dir: None,
    };
    assert_eq!(
        select_pipeline(&options),
        Err(OcrError::UnsupportedPipeline {
            detector: OcrDetector::PpOcrV6TinyDet,
            recognizer: OcrRecognizer::PpOcrV6SmallRec,
        })
    );
}

#[test]
fn tiers_name_their_checkpoints() {
    let detector = detector_config(PpOcrV6Tier::Small);
    assert_eq!(detector.spec.repo_id, "PaddlePaddle/PP-OCRv6_small_det_onnx");
    assert_eq!(static_shape(detector.spec.static_shape), (1, 3, 960, 960));
    let recognizer = recognizer_config(PpOcrV6Tier::Tiny);
    assert_eq!(recognizer.num_classes, 6906);
    assert_eq!(recognizer.spec.revision, "2612ab37152ae0a677521bae4e1e3d4fb4cf7c30");
}

#[test]
fn ctc_decoding_drops_blanks_and_repeats() {
    let dictionary = vec!["a".to_owned(), "b".to_owned(), "c".to_owned()];
    assert_eq!(ctc_decode_indices(&vec![0, 1, 1, 0, 1, 2, 2, 3, 9, 0], &dictionary), "aabc");
    assert_eq!(ctc_decode_indices(&vec![], &dictionary), "");
}

#[test]
fn neighbors_stay_inside_grid() {
    assert_eq!(neighbors(0, 0, 3, 3), vec![(1, 0), (0, 1)]);
    assert_eq!(neighbors(1, 1, 3, 3), vec![(0, 1), (2, 1), (1, 0), (1, 2)]);
    assert_eq!(neighbors(2, 2, 3, 3), vec![(1, 2), (2, 1)]);
}

#[test]
fn yaml_scalars_unquote() {
    assert_eq!(parse_yaml_scalar("\"a\\\"b\\\\c\""), "a\"b\\c");
    assert_eq!(parse_yaml_scalar("'it''s'"), "it's");
    assert_eq!(parse_yaml_scalar("x # comment"), "x");
    assert_eq!(parse_yaml_scalar("\""), "\"");
    assert_eq!(parse_inline_yaml_list("[a, 'b', \"c\"]"), Ok(vec!["a".to_owned(), "b".to_owned(), "c".to_owned()]));
    assert_eq!(parse_inline_yaml_list("a, b"), Err(DictionaryError::UnsupportedInlineList));
}

#[test]
fn character_dict_is_read_from_postprocess() {
    let yaml = "Global:\n  name: rec\nPostProcess:\n  name: CTCLabelDecode\n  character_dict:\n  - a\n  - 'b'\n  # note\n  - \"c\"\nOther: 1\n";
    assert_eq!(
        parse_character_dict(yaml),
        Ok(vec!["a".to_owned(), "b".to_owned(), "c".to_owned()])
    );
    let inline = "PostProcess:\n  character_dict: [x, y]\n";
    assert_eq!(parse_character_dict(inline), Ok(vec!["x".to_owned(), "y".to_owned()]));
    let outside = "character_dict:\n- a\n";
    assert_eq!(parse_character_dict(outside), Err(DictionaryError::MissingCharacterDict));
    let bad = "PostProcess:\n  character_dict: x\n";
    assert_eq!(parse_character_dict(bad), Err(DictionaryError::UnsupportedInlineList));
}

#[test]
fn ocr_fragments_need_letters() {
    assert!(useful_ocr_fragment("Hello"));
    assert!(useful_ocr_fragment("Ωμ 12"));
    assert!(!useful_ocr_fragment("a1"));
    assert!(!useful_ocr_fragment(""));
    assert!(!useful_ocr_fragment("Figure 3 shows"));
    assert!(!useful_ocr_fragment("Source: web"));
    assert!(is_text_like_label("paragraph_title"));
    assert!(!is_text_like_label("image"));
}

#[test]
fn vision_position_ids_follow_merge_blocks() {
    let ids = build_vision_position_ids([1, 4, 4], 2);
    assert_eq!(
        ids,
        vec![
            [0, 0], [0, 1], [1, 0], [1, 1],
            [0, 2], [0, 3], [1, 2], [1, 3],
            [2, 0], [2, 1], [3, 0], [3, 1],
            [2, 2], [2, 3], [3, 2], [3, 3],
        ]
    );
    let two_frames = build_vision_position_ids([2, 2, 3], 2);
    assert_eq!(two_frames, vec![[0, 0], [0, 1], [1, 0], [1, 1], [0, 0], [0, 1], [1, 0], [1, 1]]);
    assert!(build_vision_position_ids([0, 4, 4], 2).is_empty());
}

fn marks(rows: &[&str]) -> Vec<bool> {
    rows.iter().flat_map(|row| row.chars().map(|c| c == '#')).collect()
}

#[test]
fn mask_regions_join_side_neighbours_only() {
    let mask = marks(&["##.#", ".#.#", "#..."]);
    let regions = mask_components(&mask, 4, 3);
    let cells: Vec<Vec<usize>> = regions.iter().map(|region| region.cells.clone()).collect();
    assert_eq!(cells, vec![vec![0, 1, 5], vec![3, 7], vec![8]]);
    let boxes: Vec<_> =
        regions.iter().map(|region| (region.min_x, region.min_y, region.max_x, region.max_y)).collect();
    assert_eq!(boxes, vec![(0, 0, 1, 1), (3, 0, 3, 1), (0, 2, 0, 2)]);

    let diagonal = marks(&["#.", ".#"]);
    assert_eq!(mask_components(&diagonal, 2, 2).len(), 2);
    assert!(mask_components(&marks(&["...", "..."]), 3, 2).is_empty());
    assert!(mask_components(&Vec::new(), 0, 5).is_empty());
}

#[test]
fn mask_region_cells_follow_the_fill_stack() {
    let regions = mask_components(&marks(&["###", "###", "###"]), 3, 3);
    assert_eq!(regions.len(), 1);
    assert_eq!(regions[0].cells, vec![0, 3, 6, 7, 8, 5, 2, 4, 1]);
}

#[test]
fn small_regions_are_not_text_boxes() {
    let region = MaskComponent { cells: vec![0; 9], min_x: 2, min_y: 4, max_x: 4, max_y: 6 };
    assert!(region_large_enough(&region, 9));
    assert!(!region_large_enough(&region, 10));
    let thin = MaskComponent { cells: vec![0; 9], min_x: 2, min_y: 4, max_x: 3, max_y: 12 };
    assert!(!region_large_enough(&thin, 1));
}

#[test]
fn patch_embed_weight_transposes_official_layout() {
    let values = vec![1.0, 2.0, 3.0, 4.0, 5.0, 6.0];

    let transposed = transpose_flattened_patch_weight(&values, 2, 3);

    assert_eq!(transposed, vec![1.0, 4.0, 2.0, 5.0, 3.0, 6.0]);
}

#[test]
fn matrix_weight_transpose_reuses_official_layout() {
    let values = vec![1.0, 2.0, 3.0, 4.0, 5.0, 6.0];

    let transposed = transpose_flattened_matrix(&values, 2, 3);

    assert_eq!(transposed, vec![1.0, 4.0, 2.0, 5.0, 3.0, 6.0]);
}

#[test]
fn transpose_leaves_trailing_values_at_default() {
    let values = vec![1u32, 2, 3, 4, 9, 9];
    assert_eq!(transpose_flattened_matrix(&values, 2, 2), vec![1, 3, 2, 4, 0, 0]);
    assert_eq!(transpose_flattened_matrix(&values, 0, 5), vec![0; 6]);
}

#[test]
fn prompt_text_holds_one_placeholder_per_image_token() {
    assert_eq!(
        ocr_prompt_text(2, false),
        "[gMASK]<sop><|user|>\n<|begin_of_image|><|image|><|image|><|end_of_image|>Text Recognition:/nothink<|assistant|>\n<think></think>\n"
    );
    assert_eq!(
        ocr_prompt_text(0, true),
        "[gMASK]<sop><|user|>\n<|begin_of_image|><|end_of_image|>Text Recognition:<|assistant|>\n"
    );
    assert_eq!(prompt_image_tokens(16, 2), Ok(4));
    assert_eq!(prompt_image_tokens(15, 2), Err(PromptError::PatchesNotDivisible));
    assert_eq!(prompt_image_tokens(16, 0), Err(PromptError::PatchesNotDivisible));
}

#[test]
fn encoded_prompt_marks_image_tokens_and_positions() {
    let image = 59280;
    let ids = vec![59248, 59250, 59253, 59256, image, image, image, image, 59257, 7, 59254, 8];
    let prompt = ocr_prompt_from_ids(ids.clone(), image, 4, [1, 4, 4], 2).expect("prompt should build");
    assert_eq!(prompt.input_ids, ids);
    assert_eq!(prompt.image_token_range, 4..8);
    assert_eq!(prompt.mm_token_type_ids, vec![0, 0, 0, 0, 1, 1, 1, 1, 0, 0, 0, 0]);
    assert_eq!(prompt.position_ids[0][4..8], [4, 4, 4, 4]);
    assert_eq!(prompt.position_ids[1][4..8], [4, 4, 5, 5]);
    assert_eq!(prompt.position_ids[2][4..8], [4, 5, 4, 5]);
    assert_eq!(prompt.position_ids[0][8..], [6, 7, 8, 9]);

    assert_eq!(image_token_span(&ids, image), Some((4, 8)));
    assert_eq!(image_token_span(&ids, 1), None);
    assert!(matches!(
        ocr_prompt_from_ids(vec![1, 2, 3], image, 4, [1, 4, 4], 2),
        Err(PromptError::MissingImageTokens)
    ));
    assert!(matches!(
        ocr_prompt_from_ids(vec![1, image, image, 2, image], image, 4, [1, 4, 4], 2),
        Err(PromptError::ImageTokenCountMismatch)
    ));
    assert!(matches!(
        ocr_prompt_from_ids(ids, image, 4, [1, 3, 4], 2),
        Err(PromptError::PositionIds(PositionIdsError::GridNotDivisible))
    ));
    assert_eq!(PromptError::MissingImageTokens.message(), "GLM OCR prompt did not encode image placeholders");
}

#[test]
fn keeps_useful_recognitions_with_their_region() {
    let texts = vec![
        "  Chapter one \n".to_owned(),
        "Figure 3: chart".to_owned(),
        "42".to_owned(),
        " ok".to_owned(),
        "Source: archive".to_owned(),
    ];
    assert_eq!(
        useful_recognitions(&texts),
        vec![(0, "Chapter one".to_owned()), (3, "ok".to_owned())]
    );
    assert!(useful_recognitions(&Vec::new()).is_empty());

    let page = full_page_block(640, 480, "whole page".to_owned());
    assert_eq!((page.width, page.height, page.blocks.len()), (640, 480, 1));
    assert_eq!(page.blocks[0].text, "whole page");
    assert_eq!(page.blocks[0].kind, OcrBlockKind::Unknown);
}

#[test]
fn transposing_twice_restores_the_matrix() {
    let values = vec![1u16, 2, 3, 4, 5, 6];
    let once = transpose_flattened_matrix(&values, 2, 3);
    assert_eq!(transpose_flattened_matrix(&once, 3, 2), values);
}

#[test]
fn resize_checks_run_in_order() {
    assert_eq!(resize_error(100, 50, 28), None);
    assert_eq!(resize_error(100, 50, 0), Some(ResizeError::ZeroFactor));
    assert_eq!(resize_error(0, 50, 0), Some(ResizeError::ZeroFactor));
    assert_eq!(resize_error(20_100, 100, 28), Some(ResizeError::AspectRatioTooLarge));
    assert_eq!(resize_error(20_099, 100, 28), None);
    assert_eq!(ResizeError::ZeroFactor.message(), "GLM OCR resize factor must be greater than zero");
}

#[test]
fn mask_fill_order_is_deterministic_per_region() {
    let mask = marks(&["#.#", "###", "..."]);
    let regions = mask_components(&mask, 3, 3);
    assert_eq!(regions.len(), 1);
    assert_eq!(regions[0].cells, vec![0, 3, 4, 5, 2]);
}
