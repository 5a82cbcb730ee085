//! OCR pipelines and pages: which detector and recognizer run together, and
//! the text of an OCR page.
use vstd::prelude::*;

pub mod components;
pub mod glm;
pub mod layout;
pub mod pp_ocr;
pub mod prompt;

use crate::ocr::pp_ocr::PpOcrV6Tier;
use crate::ocr::layout::{spec_useful_fragment, useful_ocr_fragment};
use crate::text::{join_seq, join_strings, strings_view, trim, trimmed};

verus! {

/// OCR-local block classification.
#[derive(Clone, Copy, PartialEq, Eq, Debug)]
pub enum OcrBlockKind {
    /// Regular text.
    Text,
    /// Unknown OCR block kind.
    Unknown,
}

/// OCR text block. Its bounding box and confidence, which are floating-point
/// values, are carried by the application alongside.
pub struct OcrBlock {
    /// Recognized text.
    pub text: String,
    /// OCR-local block kind.
    pub kind: OcrBlockKind,
}

/// OCR output for one image/page.
pub struct OcrPage {
    /// Source image width in pixels.
    pub width: u32,
    /// Source image height in pixels.
    pub height: u32,
    /// OCR blocks in reading order.
    pub blocks: Vec<OcrBlock>,
}

/// Text of each block of a sequence.
pub open spec fn block_texts(blocks: Seq<OcrBlock>) -> Seq<Seq<char>> {
    blocks.map_values(|b: OcrBlock| b.text@)
}

/// The trimmed texts that are not empty, in order.
pub open spec fn nonempty_trimmed(texts: Seq<Seq<char>>) -> Seq<Seq<char>>
    decreases texts.len(),
{
    if texts.len() == 0 {
        seq![]
    } else {
        let before = nonempty_trimmed(texts.drop_last());
        let t = trimmed(texts.last());
        if t.len() > 0 {
            before.push(t)
        } else {
            before
        }
    }
}

/// Trimmed, non-empty texts of the blocks of a page, in order.
pub fn block_fragments(blocks: &Vec<OcrBlock>) -> (fragments: Vec<String>)
    ensures
        strings_view(fragments@) == nonempty_trimmed(block_texts(blocks@)),
        forall|i: int| 0 <= i < fragments@.len() ==> (#[trigger] fragments@[i])@.len() > 0,
{
    let mut fragments: Vec<String> = Vec::new();
    let mut i: usize = 0;
    while i < blocks.len()
        invariant
            i <= blocks@.len(),
            strings_view(fragments@) == nonempty_trimmed(block_texts(blocks@.subrange(0, i as int))),
            forall|k: int| 0 <= k < fragments@.len() ==> (#[trigger] fragments@[k])@.len() > 0,
        decreases blocks@.len() - i,
    {
        let t = trim(blocks[i].text.as_str());
        let ghost before = fragments@;
        proof {
            let next = block_texts(blocks@.subrange(0, i as int + 1));
            assert(next.drop_last() =~= block_texts(blocks@.subrange(0, i as int)));
            assert(next.last() == blocks@[i as int].text@);
        }
        if t.unicode_len() > 0 {
            fragments.push(t.to_owned());
            assert(strings_view(fragments@) =~= strings_view(before).push(t@));
        }
        i = i + 1;
    }
    assert(blocks@.subrange(0, i as int) =~= blocks@);
    fragments
}

/// Recognized texts of a page's text regions that become blocks, with the
/// index of their region: each text trimmed, kept when it is a useful
/// fragment, in region order.
pub open spec fn kept_recognitions(texts: Seq<Seq<char>>) -> Seq<(int, Seq<char>)>
    decreases texts.len(),
{
    if texts.len() == 0 {
        seq![]
    } else {
        let before = kept_recognitions(texts.drop_last());
        let t = trimmed(texts.last());
        if spec_useful_fragment(t) {
            before.push((texts.len() - 1, t))
        } else {
            before
        }
    }
}

/// Recognitions viewed as region indexes and texts.
pub open spec fn recognitions_view(kept: Seq<(usize, String)>) -> Seq<(int, Seq<char>)> {
    kept.map_values(|p: (usize, String)| (p.0 as int, p.1@))
}

/// Picks, among the texts recognized in a page's text regions, those that
/// become text blocks, with the index of their region.
pub fn useful_recognitions(texts: &Vec<String>) -> (kept: Vec<(usize, String)>)
    ensures
        recognitions_view(kept@) == kept_recognitions(strings_view(texts@)),
{
    let mut kept: Vec<(usize, String)> = Vec::new();
    let mut i: usize = 0;
    while i < texts.len()
        invariant
            i <= texts@.len(),
            recognitions_view(kept@) == kept_recognitions(strings_view(texts@.subrange(0, i as int))),
        decreases texts@.len() - i,
    {
        let t = trim(texts[i].as_str());
        let ghost before = kept@;
        proof {
            let next = strings_view(texts@.subrange(0, i as int + 1));
            assert(next.drop_last() =~= strings_view(texts@.subrange(0, i as int)));
            assert(next.last() == texts@[i as int]@);
            assert(next.len() - 1 == i);
        }
        if useful_ocr_fragment(t) {
            kept.push((i, t.to_owned()));
            assert(recognitions_view(kept@) =~= recognitions_view(before).push((i as int, t@)));
        }
        i = i + 1;
    }
    assert(texts@.subrange(0, i as int) =~= texts@);
    kept
}

/// Page of one block holding the text recognized over the whole image, for
/// pages where no text region gave a block.
pub fn full_page_block(width: u32, height: u32, text: String) -> (page: OcrPage)
    ensures
        page.width == width,
        page.height == height,
        page.blocks@.len() == 1,
        page.blocks@[0].text == text,
        page.blocks@[0].kind == OcrBlockKind::Unknown,
{
    OcrPage { width, height, blocks: vec![OcrBlock { text, kind: OcrBlockKind::Unknown }] }
}

impl OcrPage {
    /// Render OCR blocks as newline-separated plain text.
    pub fn plain_text(&self) -> (text: String)
        ensures
            text@ == join_seq(nonempty_trimmed(block_texts(self.blocks@)), "\n"@),
    {
        let fragments = block_fragments(&self.blocks);
        join_strings(&fragments, "\n")
    }
}


/// Region detection strategy.
#[derive(Clone, Copy, PartialEq, Eq, Debug)]
pub enum OcrDetector {
    /// PP-DocLayoutV3 document region detector.
    PpDocLayout,
    /// PaddleOCR PP-OCRv6 tiny detector.
    PpOcrV6TinyDet,
    /// PaddleOCR PP-OCRv6 small detector.
    PpOcrV6SmallDet,
    /// PaddleOCR PP-OCRv6 medium detector.
    PpOcrV6MediumDet,
    /// No explicit detection; recognizer receives whole image.
    NoDetection,
}

impl Default for OcrDetector {
    fn default() -> (detector: Self)
        ensures
            detector == OcrDetector::PpOcrV6MediumDet,
    {
        OcrDetector::PpOcrV6MediumDet
    }
}

/// Text recognition strategy.
#[derive(Clone, Copy, PartialEq, Eq, Debug)]
pub enum OcrRecognizer {
    /// Z.ai GLM OCR recognizer.
    GlmOcr,
    /// PaddleOCR PP-OCRv6 tiny recognizer.
    PpOcrV6TinyRec,
    /// PaddleOCR PP-OCRv6 small recognizer.
    PpOcrV6SmallRec,
    /// PaddleOCR PP-OCRv6 medium recognizer.
    PpOcrV6MediumRec,
}

impl Default for OcrRecognizer {
    fn default() -> (recognizer: Self)
        ensures
            recognizer == OcrRecognizer::PpOcrV6MediumRec,
    {
        OcrRecognizer::PpOcrV6MediumRec
    }
}

/// Options for OCR model loading and inference.
pub struct OcrOptions {
    /// Region detector used before recognition.
    pub detector: OcrDetector,
    /// Text recognizer used after detection.
    pub recognizer: OcrRecognizer,
    /// Optional model download cache directory.
    pub cache_dir: Option<String>,
}

impl Default for OcrOptions {
    fn default() -> (options: Self)
        ensures
            options.detector == OcrDetector::PpOcrV6MediumDet,
            options.recognizer == OcrRecognizer::PpOcrV6MediumRec,
            options.cache_dir is None,
    {
        OcrOptions { detector: OcrDetector::default(), recognizer: OcrRecognizer::default(), cache_dir: None }
    }
}

/// Models an OCR engine loads.
#[derive(Clone, Copy, PartialEq, Eq, Debug)]
pub enum OcrPipeline {
    /// GLM OCR on the whole image.
    Glm,
    /// PP-DocLayout regions, each recognized by GLM OCR.
    LayoutGlm,
    /// PaddleOCR detection and recognition of one tier.
    PpOcr(PpOcrV6Tier),
}

/// Errors of OCR pipeline selection.
#[derive(Clone, Copy, PartialEq, Eq, Debug)]
pub enum OcrError {
    /// The detector and recognizer do not run together.
    UnsupportedPipeline { detector: OcrDetector, recognizer: OcrRecognizer },
}

/// Pipeline a detector and recognizer run as, `None` when they do not run
/// together.
pub open spec fn spec_pipeline_for(detector: OcrDetector, recognizer: OcrRecognizer) -> Option<
    OcrPipeline,
> {
    match (detector, recognizer) {
        (OcrDetector::PpDocLayout, OcrRecognizer::GlmOcr) => Some(OcrPipeline::LayoutGlm),
        (OcrDetector::NoDetection, OcrRecognizer::GlmOcr) => Some(OcrPipeline::Glm),
        (OcrDetector::PpOcrV6TinyDet, OcrRecognizer::PpOcrV6TinyRec) => Some(
            OcrPipeline::PpOcr(PpOcrV6Tier::Tiny),
        ),
        (OcrDetector::PpOcrV6SmallDet, OcrRecognizer::PpOcrV6SmallRec) => Some(
            OcrPipeline::PpOcr(PpOcrV6Tier::Small),
        ),
        (OcrDetector::PpOcrV6MediumDet, OcrRecognizer::PpOcrV6MediumRec) => Some(
            OcrPipeline::PpOcr(PpOcrV6Tier::Medium),
        ),
        _ => None,
    }
}

/// Detector and recognizer a pipeline runs.
pub open spec fn spec_pipeline_parts(pipeline: OcrPipeline) -> (OcrDetector, OcrRecognizer) {
    match pipeline {
        OcrPipeline::Glm => (OcrDetector::NoDetection, OcrRecognizer::GlmOcr),
        OcrPipeline::LayoutGlm => (OcrDetector::PpDocLayout, OcrRecognizer::GlmOcr),
        OcrPipeline::PpOcr(PpOcrV6Tier::Tiny) => (
            OcrDetector::PpOcrV6TinyDet,
            OcrRecognizer::PpOcrV6TinyRec,
        ),
        OcrPipeline::PpOcr(PpOcrV6Tier::Small) => (
            OcrDetector::PpOcrV6SmallDet,
            OcrRecognizer::PpOcrV6SmallRec,
        ),
        OcrPipeline::PpOcr(PpOcrV6Tier::Medium) => (
            OcrDetector::PpOcrV6MediumDet,
            OcrRecognizer::PpOcrV6MediumRec,
        ),
    }
}

/// Selects the pipeline that the options ask for, or reports that their
/// detector and recognizer do not run together.
pub fn select_pipeline(options: &OcrOptions) -> (pipeline: Result<OcrPipeline, OcrError>)
    ensures
        match spec_pipeline_for(options.detector, options.recognizer) {
            Some(p) => pipeline == Ok::<OcrPipeline, OcrError>(p),
            None => pipeline == Err::<OcrPipeline, OcrError>(
                OcrError::UnsupportedPipeline {
                    detector: options.detector,
                    recognizer: options.recognizer,
                },
            ),
        },
{
    match (options.detector, options.recognizer) {
        (OcrDetector::PpDocLayout, OcrRecognizer::GlmOcr) => Ok(OcrPipeline::LayoutGlm),
        (OcrDetector::NoDetection, OcrRecognizer::GlmOcr) => Ok(OcrPipeline::Glm),
        (OcrDetector::PpOcrV6TinyDet, OcrRecognizer::PpOcrV6TinyRec) => Ok(
            OcrPipeline::PpOcr(PpOcrV6Tier::Tiny),
        ),
        (OcrDetector::PpOcrV6SmallDet, OcrRecognizer::PpOcrV6SmallRec) => Ok(
            OcrPipeline::PpOcr(PpOcrV6Tier::Small),
        ),
        (OcrDetector::PpOcrV6MediumDet, OcrRecognizer::PpOcrV6MediumRec) => Ok(
            OcrPipeline::PpOcr(PpOcrV6Tier::Medium),
        ),
        (detector, recognizer) => Err(OcrError::UnsupportedPipeline { detector, recognizer }),
    }
}

impl OcrPipeline {
    /// Returns configured detector and recognizer.
    pub fn pipeline(&self) -> (parts: (OcrDetector, OcrRecognizer))
        ensures
            parts == spec_pipeline_parts(*self),
    {
        match self {
            OcrPipeline::Glm => (OcrDetector::NoDetection, OcrRecognizer::GlmOcr),
            OcrPipeline::LayoutGlm => (OcrDetector::PpDocLayout, OcrRecognizer::GlmOcr),
            OcrPipeline::PpOcr(PpOcrV6Tier::Tiny) => (
                OcrDetector::PpOcrV6TinyDet,
                OcrRecognizer::PpOcrV6TinyRec,
            ),
            OcrPipeline::PpOcr(PpOcrV6Tier::Small) => (
                OcrDetector::PpOcrV6SmallDet,
                OcrRecognizer::PpOcrV6SmallRec,
            ),
            OcrPipeline::PpOcr(PpOcrV6Tier::Medium) => (
                OcrDetector::PpOcrV6MediumDet,
                OcrRecognizer::PpOcrV6MediumRec,
            ),
        }
    }
}

/// PP-OCRv6 tier a detector names, `None` for the other detectors.
pub open spec fn detector_tier(detector: OcrDetector) -> Option<PpOcrV6Tier> {
    match detector {
        OcrDetector::PpOcrV6TinyDet => Some(PpOcrV6Tier::Tiny),
        OcrDetector::PpOcrV6SmallDet => Some(PpOcrV6Tier::Small),
        OcrDetector::PpOcrV6MediumDet => Some(PpOcrV6Tier::Medium),
        _ => None,
    }
}

/// PP-OCRv6 tier a recognizer names, `None` for the other recognizers.
pub open spec fn recognizer_tier(recognizer: OcrRecognizer) -> Option<PpOcrV6Tier> {
    match recognizer {
        OcrRecognizer::PpOcrV6TinyRec => Some(PpOcrV6Tier::Tiny),
        OcrRecognizer::PpOcrV6SmallRec => Some(PpOcrV6Tier::Small),
        OcrRecognizer::PpOcrV6MediumRec => Some(PpOcrV6Tier::Medium),
        _ => None,
    }
}

/// A PP-OCR pipeline runs the tier its detector and recognizer name: options
/// select `PpOcr(tier)` exactly when both the detector and the recognizer are
/// of that tier, and the pipeline of a tier runs that tier's detector and
/// recognizer.
pub proof fn lemma_pipeline_tier(detector: OcrDetector, recognizer: OcrRecognizer, tier: PpOcrV6Tier)
    ensures
        spec_pipeline_for(detector, recognizer) == Some(OcrPipeline::PpOcr(tier)) <==> (
        detector_tier(detector) == Some(tier) && recognizer_tier(recognizer) == Some(tier)),
        detector_tier(spec_pipeline_parts(OcrPipeline::PpOcr(tier)).0) == Some(tier),
        recognizer_tier(spec_pipeline_parts(OcrPipeline::PpOcr(tier)).1) == Some(tier),
        spec_pipeline_for(OcrDetector::PpOcrV6TinyDet, OcrRecognizer::PpOcrV6TinyRec) == Some(
            OcrPipeline::PpOcr(PpOcrV6Tier::Tiny),
        ),
        spec_pipeline_for(OcrDetector::PpOcrV6SmallDet, OcrRecognizer::PpOcrV6SmallRec) == Some(
            OcrPipeline::PpOcr(PpOcrV6Tier::Small),
        ),
        spec_pipeline_for(OcrDetector::PpOcrV6MediumDet, OcrRecognizer::PpOcrV6MediumRec) == Some(
            OcrPipeline::PpOcr(PpOcrV6Tier::Medium),
        ),
{
}

/// GLM OCR runs on the whole image exactly when there is no detector, and on
/// PP-DocLayout regions exactly when that detector is chosen; the GLM
/// recognizer runs with no other detector, and no PP-OCR recognizer runs
/// with GLM's pipelines.
pub proof fn lemma_pipeline_glm(detector: OcrDetector, recognizer: OcrRecognizer)
    ensures
        spec_pipeline_for(detector, recognizer) == Some(OcrPipeline::Glm) <==> (detector
            == OcrDetector::NoDetection && recognizer == OcrRecognizer::GlmOcr),
        spec_pipeline_for(detector, recognizer) == Some(OcrPipeline::LayoutGlm) <==> (detector
            == OcrDetector::PpDocLayout && recognizer == OcrRecognizer::GlmOcr),
{
}

/// An engine built from options reports the detector and recognizer of those
/// options, and every pipeline is what its own detector and recognizer select.
pub proof fn lemma_pipeline_round_trip(detector: OcrDetector, recognizer: OcrRecognizer, pipeline: OcrPipeline)
    ensures
        spec_pipeline_for(detector, recognizer) matches Some(p) ==> spec_pipeline_parts(p) == (
            detector,
            recognizer,
        ),
        spec_pipeline_for(spec_pipeline_parts(pipeline).0, spec_pipeline_parts(pipeline).1) == Some(
            pipeline,
        ),
{
}

} // verus!
