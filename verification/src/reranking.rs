//! Text reranking model identifiers.
use vstd::prelude::*;

verus! {

/// Available Jina reranker v2 model variants.
#[derive(Debug, Clone, Copy, PartialEq, Eq)]
pub enum JinaV2RerankerVariant {
    /// `jinaai/jina-reranker-v2-base-multilingual`.
    BaseMultilingual,
}

/// Hugging Face repository id of a reranker variant.
pub open spec fn spec_repo_id(variant: JinaV2RerankerVariant) -> Seq<char> {
    match variant {
        JinaV2RerankerVariant::BaseMultilingual => "jinaai/jina-reranker-v2-base-multilingual"@,
    }
}

impl Default for JinaV2RerankerVariant {
    /// The multilingual base model.
    fn default() -> (variant: Self)
        ensures
            variant == JinaV2RerankerVariant::BaseMultilingual,
    {
        JinaV2RerankerVariant::BaseMultilingual
    }
}

impl JinaV2RerankerVariant {
    /// Returns the Hugging Face repository id for this variant.
    pub fn repo_id(self) -> (id: &'static str)
        ensures
            id@ == spec_repo_id(self),
    {
        match self {
            JinaV2RerankerVariant::BaseMultilingual => "jinaai/jina-reranker-v2-base-multilingual",
        }
    }
}

} // verus!
