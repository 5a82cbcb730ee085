//! Graph primitives: domain relationships stored as graph edges.
use vstd::prelude::*;

verus! {

/// Domain relationship that can be stored as a graph edge.
pub trait GraphEdge {
    /// Source node labels.
    fn source_labels(&self) -> Vec<&str>;

    /// Stable source node identifier within its labels.
    fn source(&self) -> &str;

    /// Relationship type from source to target.
    fn predicate(&self) -> &str;

    /// Stable target node identifier within its labels.
    fn target(&self) -> &str;

    /// Target node labels.
    fn target_labels(&self) -> Vec<&str>;
}

} // verus!
