use akuna_core::graph::storage::compose_gql_labels;
use akuna_core::storage::graph::{
    search_text, GraphError, GraphNode, GraphTarget, GraphWriteOperation,
};

#[test]
fn labels_compose_with_colons() {
    assert_eq!(compose_gql_labels(&["Person", "Author"]), "Person:Author");
    assert_eq!(compose_gql_labels(&["Only"]), "Only");
    assert_eq!(compose_gql_labels(&[]), "");
}

fn node(description: Option<&str>) -> GraphNode {
    GraphNode {
        id: "n1".to_owned(),
        labels: vec!["Concept".to_owned()],
        name: "Rust".to_owned(),
        description: description.map(str::to_owned),
        metadata: None,
    }
}

#[test]
fn search_text_joins_name_and_description() {
    assert_eq!(search_text(&node(Some("A language"))), "Rust\nA language");
    assert_eq!(search_text(&node(None)), "Rust");
}

#[test]
fn graph_errors_describe_targets() {
    let target = GraphTarget::Edge {
        predicate: "KNOWS".to_owned(),
        source_id: "a".to_owned(),
        target_id: "b".to_owned(),
    };
    assert_eq!(
        GraphError::NotFound { target }.message(),
        "Graph edge 'KNOWS' from 'a' to 'b' does not exist"
    );
    let target = GraphTarget::Node { labels: vec!["A".to_owned(), "B".to_owned()], id: "7".to_owned() };
    assert_eq!(
        GraphError::WriteFailed { engine: "grafeo", operation: GraphWriteOperation::Delete, target }
            .message(),
        "Graph delete failed for node '7' with labels '[\"A\", \"B\"]' using engine 'grafeo'"
    );
    assert_eq!(GraphError::DbInit { engine: "grafeo" }.message(), "Database engine 'grafeo' failed to initialise");
    assert_eq!(GraphWriteOperation::Put.as_str(), "put");
}
