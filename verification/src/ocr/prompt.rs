//! The GLM OCR prompt: its text, and the layout of the image tokens the
//! model reads from the encoded prompt.
use vstd::prelude::*;
use vstd::string::*;

use crate::ocr::glm::{axis_positions, build_single_image_position_ids, position_ids_error, positions_fit, PositionIdsError};

verus! {

/// Ways a GLM OCR prompt cannot be built.
#[derive(Clone, Copy, PartialEq, Eq, Debug)]
pub enum PromptError {
    /// The merge area is zero or does not divide the number of patches.
    PatchesNotDivisible,
    /// The encoded prompt holds no image token.
    MissingImageTokens,
    /// The encoded prompt holds another number of image tokens than the
    /// image has merged patches.
    ImageTokenCountMismatch,
    /// The rotary position ids could not be built.
    PositionIds(PositionIdsError),
}

/// Text of a prompt error.
pub open spec fn prompt_error_text(error: PromptError) -> Seq<char> {
    match error {
        PromptError::PatchesNotDivisible => "GLM OCR image patches must divide by merge area"@,
        PromptError::MissingImageTokens => "GLM OCR prompt did not encode image placeholders"@,
        PromptError::ImageTokenCountMismatch => "GLM OCR encoded image token count does not match vision features"@,
        PromptError::PositionIds(_) => "GLM OCR position ids could not be built"@,
    }
}

impl PromptError {
    /// Human-readable description of the error.
    pub fn message(&self) -> (text: &'static str)
        ensures
            text@ == prompt_error_text(*self),
    {
        match self {
            PromptError::PatchesNotDivisible => "GLM OCR image patches must divide by merge area",
            PromptError::MissingImageTokens => "GLM OCR prompt did not encode image placeholders",
            PromptError::ImageTokenCountMismatch => "GLM OCR encoded image token count does not match vision features",
            PromptError::PositionIds(_) => "GLM OCR position ids could not be built",
        }
    }
}

/// Number of image tokens of an image: its patches over the merge area,
/// which must be positive and divide them.
pub fn prompt_image_tokens(patches: usize, merge_size: usize) -> (tokens: Result<usize, PromptError>)
    requires
        merge_size * merge_size <= usize::MAX,
    ensures
        if merge_size == 0 || patches % (merge_size * merge_size) as usize != 0 {
            tokens == Err::<usize, PromptError>(PromptError::PatchesNotDivisible)
        } else {
            tokens == Ok::<usize, PromptError>(patches / (merge_size * merge_size) as usize)
        },
{
    let merge_area = merge_size * merge_size;
    if merge_area == 0 || patches % merge_area != 0 {
        assert(merge_size == 0 || patches % (merge_size * merge_size) as usize != 0) by (nonlinear_arith)
            requires
                merge_area == merge_size * merge_size,
                merge_area == 0 || patches % merge_area != 0,
        ;
        return Err(PromptError::PatchesNotDivisible);
    }
    assert(merge_size != 0) by (nonlinear_arith)
        requires
            merge_area == merge_size * merge_size,
            merge_area != 0,
    ;
    Ok(patches / merge_area)
}

/// `s` repeated `k` times.
pub open spec fn repeated(s: Seq<char>, k: nat) -> Seq<char>
    decreases k,
{
    if k == 0 {
        seq![]
    } else {
        repeated(s, (k - 1) as nat) + s
    }
}

/// Text of the OCR prompt for an image of `image_tokens` tokens: the user
/// turn opening the image, one placeholder per image token, then the
/// closing of the image and the instruction, with the reasoning block left
/// empty unless the official wording is asked for.
pub open spec fn ocr_prompt_text_spec(image_tokens: nat, official: bool) -> Seq<char> {
    "[gMASK]<sop><|user|>\n<|begin_of_image|>"@ + repeated("<|image|>"@, image_tokens) + if official {
        "<|end_of_image|>Text Recognition:<|assistant|>\n"@
    } else {
        "<|end_of_image|>Text Recognition:/nothink<|assistant|>\n<think></think>\n"@
    }
}

/// Builds the text of the OCR prompt.
pub fn ocr_prompt_text(image_tokens: usize, official: bool) -> (text: String)
    ensures
        text@ == ocr_prompt_text_spec(image_tokens as nat, official),
{
    let mut text = "[gMASK]<sop><|user|>\n<|begin_of_image|>".to_owned();
    let mut k: usize = 0;
    while k < image_tokens
        invariant
            k <= image_tokens,
            text@ == "[gMASK]<sop><|user|>\n<|begin_of_image|>"@ + repeated("<|image|>"@, k as nat),
        decreases image_tokens - k,
    {
        text.append("<|image|>");
        k = k + 1;
    }
    if official {
        text.append("<|end_of_image|>Text Recognition:<|assistant|>\n");
    } else {
        text.append("<|end_of_image|>Text Recognition:/nothink<|assistant|>\n<think></think>\n");
    }
    text
}

/// Whether `[start, end)` is the first run of `token` in `ids`: no earlier
/// id is the token, every id of the run is, and the run ends at the end of
/// `ids` or before an id that is not the token.
pub open spec fn first_token_run(ids: Seq<u32>, token: u32, start: int, end: int) -> bool {
    &&& 0 <= start < end <= ids.len()
    &&& forall|i: int| 0 <= i < start ==> ids[i] != token
    &&& forall|i: int| start <= i < end ==> ids[i] == token
    &&& end == ids.len() || ids[end] != token
}

/// Finds the first run of a token in a sequence of ids.
pub fn image_token_span(ids: &Vec<u32>, token: u32) -> (span: Option<(usize, usize)>)
    ensures
        match span {
            None => forall|i: int| 0 <= i < ids@.len() ==> ids@[i] != token,
            Some((start, end)) => first_token_run(ids@, token, start as int, end as int),
        },
{
    let mut start: usize = 0;
    while start < ids.len() && ids[start] != token
        invariant
            start <= ids@.len(),
            forall|i: int| 0 <= i < start ==> ids@[i] != token,
        decreases ids@.len() - start,
    {
        start = start + 1;
    }
    if start == ids.len() {
        return None;
    }
    let mut end: usize = start + 1;
    while end < ids.len() && ids[end] == token
        invariant
            start < end <= ids@.len(),
            forall|i: int| start <= i < end ==> ids@[i] == token,
        decreases ids@.len() - end,
    {
        end = end + 1;
    }
    Some((start, end))
}

/// Encoded GLM OCR prompt with the layout the model reads.
pub struct GlmOcrPrompt {
    /// Token ids of the prompt.
    pub input_ids: Vec<u32>,
    /// One per token: 1 for an image token, 0 for text.
    pub mm_token_type_ids: Vec<u8>,
    /// Positions of the image tokens.
    pub image_token_range: core::ops::Range<usize>,
    /// Rotary position ids: temporal, height and width axes.
    pub position_ids: [Vec<i64>; 3],
}

/// Lays out an encoded OCR prompt: finds the run of image tokens, checks it
/// holds one token per merged patch, marks its token types and builds the
/// position ids.
pub fn ocr_prompt_from_ids(
    input_ids: Vec<u32>,
    image_token_id: u32,
    image_tokens: usize,
    grid_thw: [i64; 3],
    merge_size: usize,
) -> (prompt: Result<GlmOcrPrompt, PromptError>)
    requires
        forall|start: int, end: int|
            first_token_run(input_ids@, image_token_id, start, end) && end - start == image_tokens ==> positions_fit(
                input_ids@.len() as usize,
                start as usize,
                end as usize,
                grid_thw,
                merge_size,
            ),
    ensures
        match prompt {
            Ok(p) => {
                let start = p.image_token_range.start;
                let end = p.image_token_range.end;
                &&& first_token_run(input_ids@, image_token_id, start as int, end as int)
                &&& end - start == image_tokens
                &&& position_ids_error(input_ids@.len() as usize, start, end, grid_thw, merge_size) is None
                &&& p.input_ids@ == input_ids@
                &&& p.mm_token_type_ids@.len() == input_ids@.len()
                &&& forall|i: int|
                    0 <= i < input_ids@.len() ==> #[trigger] p.mm_token_type_ids@[i] == if start <= i < end {
                        1u8
                    } else {
                        0u8
                    }
                &&& forall|a: int|
                    0 <= a < 3 ==> #[trigger] p.position_ids@[a]@ == axis_positions(
                        a,
                        input_ids@.len() as usize,
                        start,
                        end,
                        grid_thw,
                        merge_size,
                    )
            },
            Err(PromptError::MissingImageTokens) => forall|i: int|
                0 <= i < input_ids@.len() ==> input_ids@[i] != image_token_id,
            Err(PromptError::ImageTokenCountMismatch) => exists|start: int, end: int|
                first_token_run(input_ids@, image_token_id, start, end) && end - start != image_tokens,
            Err(PromptError::PositionIds(e)) => exists|start: int, end: int|
                first_token_run(input_ids@, image_token_id, start, end) && end - start == image_tokens
                    && position_ids_error(input_ids@.len() as usize, start as usize, end as usize, grid_thw, merge_size)
                    == Some(e),
            Err(PromptError::PatchesNotDivisible) => false,
        },
{
    let span = image_token_span(&input_ids, image_token_id);
    let (start, end) = match span {
        None => return Err(PromptError::MissingImageTokens),
        Some(span) => span,
    };
    if end - start != image_tokens {
        return Err(PromptError::ImageTokenCountMismatch);
    }
    let len = input_ids.len();
    let mut mm_token_type_ids: Vec<u8> = Vec::new();
    let mut i: usize = 0;
    while i < len
        invariant
            len == input_ids@.len(),
            i <= len,
            mm_token_type_ids@.len() == i,
            forall|j: int|
                0 <= j < i ==> #[trigger] mm_token_type_ids@[j] == if start <= j < end {
                    1u8
                } else {
                    0u8
                },
        decreases len - i,
    {
        if start <= i && i < end {
            mm_token_type_ids.push(1);
        } else {
            mm_token_type_ids.push(0);
        }
        i = i + 1;
    }
    let positions = build_single_image_position_ids(len, start..end, grid_thw, merge_size);
    match positions {
        Err(e) => Err(PromptError::PositionIds(e)),
        Ok(position_ids) => Ok(
            GlmOcrPrompt { input_ids, mm_token_type_ids, image_token_range: start..end, position_ids },
        ),
    }
}

} // verus!
