//! Graph storage domain types: nodes, edges, search queries, and errors.
use vstd::prelude::*;
use vstd::string::*;

use crate::text::{join_seq, join_strings, strings_view};

verus! {

/// Graph operation target.
pub enum GraphTarget {
    /// Graph node identified by labels and domain ID.
    Node {
        /// Graph node labels searched.
        labels: Vec<String>,
        /// Domain ID searched.
        id: String,
    },
    /// Graph edge identified by relationship type and endpoint IDs.
    Edge {
        /// Relationship type from source to target.
        predicate: String,
        /// Stable domain identifier for the source node.
        source_id: String,
        /// Stable domain identifier for the target node.
        target_id: String,
    },
}

/// Graph write operation.
#[derive(Clone, Copy, PartialEq, Eq, Debug)]
pub enum GraphWriteOperation {
    /// Store or update graph data.
    Put,
    /// Delete graph data.
    Delete,
}

/// Errors that can occur during graph operations. The underlying errors of
/// the storage engine are reported by the application that holds them.
pub enum GraphError {
    /// Database engine failed to initialise.
    DbInit { engine: &'static str },
    /// Error converting domain data into graph properties.
    Serialization,
    /// Error converting graph properties back into domain data.
    Deserialization,
    /// Node properties were valid JSON, but not a graph property object.
    InvalidNodeItem,
    /// Graph target already exists.
    AlreadyExists { target: GraphTarget },
    /// Graph target did not exist.
    NotFound { target: GraphTarget },
    /// Error mutating graph data.
    WriteFailed { engine: &'static str, operation: GraphWriteOperation, target: GraphTarget },
    /// Error destroying graph storage.
    GraphDestroy { engine: &'static str },
    /// Error executing a graph query.
    QueryExecution { engine: &'static str },
}

/// Backend-neutral graph storage mode.
pub enum GraphStorage {
    /// Data is kept in memory only.
    InMemory,
    /// Data is persisted at the given path.
    Persistent(String),
}

/// Flexible relationship between knowledge graph nodes.
pub struct GraphEdge {
    /// Source node labels.
    pub source_labels: Vec<String>,
    /// Stable source node identifier within its labels.
    pub source: String,
    /// Relationship type from source to target.
    pub predicate: String,
    /// Stable target node identifier within its labels.
    pub target: String,
    /// Target node labels.
    pub target_labels: Vec<String>,
}

/// Flexible knowledge graph concept with caller-defined labels and metadata.
pub struct GraphNode {
    /// Stable concept identifier within its labels.
    pub id: String,
    /// Graph labels for this concept.
    pub labels: Vec<String>,
    /// Human-readable concept name.
    pub name: String,
    /// Optional concept description.
    pub description: Option<String>,
    /// Concept metadata as JSON text.
    pub metadata: Option<String>,
}

/// Node search request sent to graph storage.
pub struct GraphNodeSearchQuery {
    /// Optional label to search within.
    pub label: Option<String>,
    /// Search text.
    pub query: String,
    /// Maximum result count.
    pub limit: usize,
}

/// Search text of a node: its name, then its description on a line of its own.
pub open spec fn node_search_text(node: GraphNode) -> Seq<char> {
    match node.description {
        Some(d) => node.name@ + "\n"@ + d@,
        None => node.name@,
    }
}

/// Builds the search text used to index a node for hybrid retrieval.
pub fn search_text(node: &GraphNode) -> (text: String)
    ensures
        text@ == node_search_text(*node),
{
    let mut text = node.name.clone();
    if let Some(description) = &node.description {
        text.append("\n");
        text.append(description.as_str());
    }
    text
}

/// Text of `format!("{:?}", items)` for a list of strings.
pub uninterp spec fn debug_string_list(items: Seq<Seq<char>>) -> Seq<char>;

/// `format!("{:?}", items)`: the `Debug` rendering of a list of strings,
/// which quotes and escapes each string. Its text is named, not stated.
#[verifier::external_body]
fn debug_strings(items: &Vec<String>) -> (text: String)
    ensures
        text@ == debug_string_list(strings_view(items@)),
{
    format!("{:?}", items)
}

/// Description of a graph target, as error messages show it.
pub open spec fn target_text(target: GraphTarget) -> Seq<char> {
    match target {
        GraphTarget::Node { labels, id } => "node '"@ + id@ + "' with labels '"@
            + debug_string_list(strings_view(labels@)) + "'"@,
        GraphTarget::Edge { predicate, source_id, target_id } => "edge '"@ + predicate@
            + "' from '"@ + source_id@ + "' to '"@ + target_id@ + "'"@,
    }
}

/// Name of a write operation.
pub open spec fn operation_text(operation: GraphWriteOperation) -> Seq<char> {
    match operation {
        GraphWriteOperation::Put => "put"@,
        GraphWriteOperation::Delete => "delete"@,
    }
}

/// Message of a graph error.
pub open spec fn error_text(error: GraphError) -> Seq<char> {
    match error {
        GraphError::DbInit { engine } => "Database engine '"@ + engine@ + "' failed to initialise"@,
        GraphError::Serialization => "Graph serialization failed"@,
        GraphError::Deserialization => "Graph deserialization failed"@,
        GraphError::InvalidNodeItem => "Node properties must serialize to an object"@,
        GraphError::AlreadyExists { target } => "Graph "@ + target_text(target) + " already exists"@,
        GraphError::NotFound { target } => "Graph "@ + target_text(target) + " does not exist"@,
        GraphError::WriteFailed { engine, operation, target } => "Graph "@ + operation_text(
            operation,
        ) + " failed for "@ + target_text(target) + " using engine '"@ + engine@ + "'"@,
        GraphError::GraphDestroy { engine } => "Graph storage destroy failed with engine '"@
            + engine@ + "'"@,
        GraphError::QueryExecution { engine } => "Query execution failed with engine '"@ + engine@
            + "'"@,
    }
}

impl GraphTarget {
    /// Describes the target, as error messages show it.
    pub fn describe(&self) -> (text: String)
        ensures
            text@ == target_text(*self),
    {
        match self {
            GraphTarget::Node { labels, id } => {
                let mut text = "node '".to_owned();
                text.append(id.as_str());
                text.append("' with labels '");
                let list = debug_strings(labels);
                text.append(list.as_str());
                text.append("'");
                text
            },
            GraphTarget::Edge { predicate, source_id, target_id } => {
                let mut text = "edge '".to_owned();
                text.append(predicate.as_str());
                text.append("' from '");
                text.append(source_id.as_str());
                text.append("' to '");
                text.append(target_id.as_str());
                text.append("'");
                text
            },
        }
    }
}

impl GraphWriteOperation {
    /// Name of the operation.
    pub fn as_str(&self) -> (name: &'static str)
        ensures
            name@ == operation_text(*self),
    {
        match self {
            GraphWriteOperation::Put => "put",
            GraphWriteOperation::Delete => "delete",
        }
    }
}

impl GraphError {
    /// Message describing the error.
    pub fn message(&self) -> (text: String)
        ensures
            text@ == error_text(*self),
    {
        match self {
            GraphError::DbInit { engine } => {
                let mut text = "Database engine '".to_owned();
                text.append(engine);
                text.append("' failed to initialise");
                text
            },
            GraphError::Serialization => "Graph serialization failed".to_owned(),
            GraphError::Deserialization => "Graph deserialization failed".to_owned(),
            GraphError::InvalidNodeItem => "Node properties must serialize to an object".to_owned(),
            GraphError::AlreadyExists { target } => {
                let mut text = "Graph ".to_owned();
                let t = target.describe();
                text.append(t.as_str());
                text.append(" already exists");
                text
            },
            GraphError::NotFound { target } => {
                let mut text = "Graph ".to_owned();
                let t = target.describe();
                text.append(t.as_str());
                text.append(" does not exist");
                text
            },
            GraphError::WriteFailed { engine, operation, target } => {
                let mut text = "Graph ".to_owned();
                text.append(operation.as_str());
                text.append(" failed for ");
                let t = target.describe();
                text.append(t.as_str());
                text.append(" using engine '");
                text.append(engine);
                text.append("'");
                text
            },
            GraphError::GraphDestroy { engine } => {
                let mut text = "Graph storage destroy failed with engine '".to_owned();
                text.append(engine);
                text.append("'");
                text
            },
            GraphError::QueryExecution { engine } => {
                let mut text = "Query execution failed with engine '".to_owned();
                text.append(engine);
                text.append("'");
                text
            },
        }
    }
}

} // verus!
