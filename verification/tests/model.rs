use graph_ingest::data::model::{NodeId, TraversalNode};
use graph_ingest::data::rest_api::{File as FileList, GetNodeRequest, IngestionRequest, TraversalNodeRequest};
use graph_ingest::data::source_model::{File, Nodes, Relation, Tag};
use graph_ingest::db::model::{DbNode, DbNodeSimple, DbRelation};

fn tree() -> Nodes {
    Nodes {
        name: "a".to_string(),
        type_field: "A".to_string(),
        children: vec![
            Nodes {
                name: "b".to_string(),
                type_field: "B".to_string(),
                children: vec![],
                tags: Some(vec![Tag { type_field: "k".to_string(), value: "v".to_string() }]),
                total_children: Some(0),
            },
            Nodes::default(),
        ],
        tags: None,
        total_children: Some(2),
    }
}

#[test]
fn default_document_is_empty() {
    let file = File::default();
    assert!(file.nodes.is_empty());
    assert!(file.relations.is_empty());
    let node = Nodes::default();
    assert_eq!(node.name, "");
    assert_eq!(node.type_field, "");
    assert!(node.children.is_empty());
    assert_eq!(node.tags, None);
    assert_eq!(node.total_children, None);
    assert_eq!(Tag::default(), Tag { type_field: String::new(), value: String::new() });
    let relation = Relation::default();
    assert_eq!(relation.type_field, "");
    assert!(relation.source.is_empty());
    assert!(relation.target.is_empty());
    assert_eq!(relation.tags, None);
}

#[test]
fn default_rows_have_the_nil_identity() {
    assert_eq!(NodeId::default(), NodeId { bits: 0 });
    assert_eq!(NodeId::default().to_string(), "00000000-0000-0000-0000-000000000000");
    let row = DbNode::default();
    assert_eq!(row.uuid, NodeId { bits: 0 });
    assert_eq!(row.direction, None);
    assert_eq!(row.relation, None);
    assert_eq!(row.relates_to, None);
    assert_eq!(row.name, "");
    assert_eq!(row.tags, None);
    let simple = DbNodeSimple::default();
    assert_eq!(simple.uuid, NodeId { bits: 0 });
    assert_eq!(simple.url, "");
    let relation = DbRelation::default();
    assert_eq!(relation.uuid, NodeId { bits: 0 });
    assert_eq!(relation.relates_to, None);
    assert_eq!(relation.node_type, "");
}

#[test]
fn default_requests_ask_for_nothing_special() {
    let get = GetNodeRequest::default();
    assert_eq!(get, GetNodeRequest { get_tags: None, get_relations: None });
    let traversal = TraversalNodeRequest::default();
    assert_eq!(traversal.direction, "");
    assert_eq!(traversal.relation_type, None);
    assert_eq!(traversal.max_depth, 0);
}

#[test]
fn copy_of_a_document_is_the_same_document() {
    let node = tree();
    assert_eq!(node.clone(), node);
    let file = File {
        nodes: vec![tree(), Nodes::default()],
        relations: vec![Relation {
            type_field: "knows".to_string(),
            source: vec!["a".to_string(), "b".to_string()],
            target: vec!["a".to_string()],
            tags: Some(vec![Tag { type_field: "k".to_string(), value: "v".to_string() }]),
        }],
    };
    let copy = file.clone();
    assert_eq!(copy, file);
    assert_eq!(copy.nodes[0].children[0].tags, file.nodes[0].children[0].tags);
}

#[test]
fn copy_of_a_traversal_tree_is_the_same_tree() {
    let leaf = TraversalNode {
        uuid: NodeId { bits: 2 },
        depth: 1,
        name: "leaf".to_string(),
        node_type: "L".to_string(),
        relations: vec![],
        relation_ids: vec!["x".to_string()],
    };
    let root = TraversalNode {
        uuid: NodeId { bits: 1 },
        depth: 0,
        name: "root".to_string(),
        node_type: "R".to_string(),
        relations: vec![leaf],
        relation_ids: vec!["two".to_string(), "three".to_string()],
    };
    assert_eq!(root.clone(), root);
}

#[test]
fn requests_hold_what_they_are_given() {
    let request = IngestionRequest {
        ingestion_id: "t1".to_string(),
        files: vec!["s3://b/one.json".to_string(), "s3://b/two.json".to_string()],
    };
    assert_eq!(request.clone(), request);
    let list = FileList { files: request.files.clone() };
    assert_eq!(list.files.len(), 2);
}
