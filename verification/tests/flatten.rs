use graph_ingest::data::model::{get_id_from_url, last_segment_of, Node, NodeId, Relation};
use graph_ingest::data::source_model::{File, Nodes, Relation as SourceRelation, Tag};
use graph_ingest::db::model::DbNode;
use graph_ingest::db::scylladb::{bind_insert, plan_node_read, NodeStatement};
use graph_ingest::flatten::{file_rows, flatten_nodes, process_nodes};
use graph_ingest::relations::{process_relations, RelationMap};

fn node(name: &str, kind: &str, children: Vec<Nodes>) -> Nodes {
    Nodes {
        name: name.to_string(),
        type_field: kind.to_string(),
        children,
        tags: None,
        total_children: None,
    }
}

fn declared(kind: &str, source: &[&str], target: &[&str]) -> SourceRelation {
    SourceRelation {
        type_field: kind.to_string(),
        source: source.iter().map(|s| s.to_string()).collect(),
        target: target.iter().map(|s| s.to_string()).collect(),
        tags: None,
    }
}

fn id(url: &str) -> NodeId {
    get_id_from_url("t1".to_string(), url.to_string())
}

fn edge(owner: &str, direction: &str, relation: &str, far: &str, far_name: &str) -> DbNode {
    DbNode {
        uuid: id(owner),
        direction: Some(direction.to_string()),
        relation: Some(relation.to_string()),
        relates_to: Some(id(far).to_string()),
        name: far_name.to_string(),
        ingestion_id: String::new(),
        url: String::new(),
        node_type: String::new(),
        tags: None,
    }
}

fn entity(url: &str, name: &str, kind: &str, tags: Vec<(String, String)>) -> DbNode {
    DbNode {
        uuid: id(url),
        direction: None,
        relation: None,
        relates_to: None,
        name: name.to_string(),
        ingestion_id: "t1".to_string(),
        url: url.to_string(),
        node_type: kind.to_string(),
        tags: Some(tags),
    }
}

/// What a partition scan gives back once `rows` are stored: the rows of one
/// partition in the order of their key, every key column present.
fn read_back(rows: &[DbNode], id_text: &str, tags: bool, relations: bool) -> Vec<DbNode> {
    let plan = plan_node_read(id_text, tags, relations).expect("an identity");
    let mut stored: Vec<(String, String, String, DbNode)> = Vec::new();
    for row in rows {
        if row.uuid != plan.id {
            continue;
        }
        let bound = bind_insert(row.clone());
        if plan.statement != NodeStatement::Partition
            && !(bound.direction.is_empty() && bound.relation.is_empty())
        {
            continue;
        }
        let read = DbNode {
            uuid: bound.id,
            direction: Some(bound.direction.clone()),
            relation: Some(bound.relation.clone()),
            relates_to: Some(bound.relates_to.clone()),
            name: bound.name,
            ingestion_id: bound.ingestion_id,
            url: bound.url,
            node_type: bound.item_type,
            tags: if plan.statement == NodeStatement::Entity { None } else { Some(bound.tags) },
        };
        stored.retain(|s| (&s.0, &s.1, &s.2) != (&bound.direction, &bound.relation, &bound.relates_to));
        stored.push((bound.direction, bound.relation, bound.relates_to, read));
    }
    stored.sort_by(|a, b| (&a.0, &a.1, &a.2).cmp(&(&b.0, &b.1, &b.2)));
    stored.into_iter().map(|s| s.3).collect()
}

fn count_nodes(nodes: &[Nodes]) -> usize {
    nodes.iter().map(|n| 1 + count_nodes(&n.children)).sum()
}

#[test]
fn single_node_without_relations() {
    let rows = file_rows(
        &"t1".to_string(),
        File { nodes: vec![node("a", "x", vec![])], relations: vec![] },
    );
    assert_eq!(rows, vec![entity("a", "a", "x", vec![])]);
    let read = read_back(&rows, &id("a").to_string(), true, false);
    let found = Node::from(read).expect("the node");
    assert_eq!(
        found,
        Node {
            uuid: NodeId { bits: 0xc596342e722b56259e3f793eee75ff33u128 },
            ingestion_id: "t1".to_string(),
            name: "a".to_string(),
            url: "a".to_string(),
            node_type: "x".to_string(),
            tags: vec![],
            relations: vec![],
        }
    );
}

#[test]
fn parent_and_child_are_joined_by_implicit_edges() {
    let rows = file_rows(
        &"t1".to_string(),
        File { nodes: vec![node("p", "P", vec![node("c", "C", vec![])])], relations: vec![] },
    );
    assert_eq!(
        rows,
        vec![
            entity("p", "p", "P", vec![]),
            edge("p", "OUT", "ISCHILD", "p/c", "c"),
            entity("p/c", "c", "C", vec![]),
            edge("p/c", "IN", "ISPARENT", "p", "p"),
        ]
    );
    let parent = Node::from(read_back(&rows, &id("p").to_string(), true, true)).expect("p");
    assert!(parent.relations.contains(&Relation {
        rel_type: "ISCHILD".to_string(),
        outbound: true,
        target_name: "c".to_string(),
        relates_to: "6b81b4ba-fe3d-58c1-968c-2d3f1bf99454".to_string(),
    }));
    let child = Node::from(read_back(&rows, &id("p/c").to_string(), true, true)).expect("p/c");
    assert_eq!(
        child.relations,
        vec![Relation {
            rel_type: "ISPARENT".to_string(),
            outbound: false,
            target_name: "p".to_string(),
            relates_to: "87955495-ec02-5eea-8878-45b380dc3de7".to_string(),
        }]
    );
    assert_eq!(child.url, "p/c");
    assert_eq!(child.name, "c");
}

#[test]
fn declared_relation_is_stored_on_both_ends() {
    let rows = file_rows(
        &"t1".to_string(),
        File {
            nodes: vec![node("a", "x", vec![]), node("b", "x", vec![])],
            relations: vec![declared("knows", &["a"], &["b"])],
        },
    );
    assert_eq!(
        rows,
        vec![
            entity("a", "a", "x", vec![]),
            edge("a", "OUT", "knows", "b", "b"),
            entity("b", "b", "x", vec![]),
            edge("b", "IN", "knows", "a", "a"),
        ]
    );
    let a = Node::from(read_back(&rows, &id("a").to_string(), true, true)).expect("a");
    assert_eq!(
        a.relations,
        vec![Relation {
            rel_type: "knows".to_string(),
            outbound: true,
            target_name: "b".to_string(),
            relates_to: id("b").to_string(),
        }]
    );
    let b = Node::from(read_back(&rows, &id("b").to_string(), true, true)).expect("b");
    assert_eq!(
        b.relations,
        vec![Relation {
            rel_type: "knows".to_string(),
            outbound: false,
            target_name: "a".to_string(),
            relates_to: id("a").to_string(),
        }]
    );
}

#[test]
fn rows_come_depth_first_and_each_node_in_its_order() {
    let tree = vec![
        node("a", "A", vec![node("b", "B", vec![node("c", "C", vec![])]), node("d", "D", vec![])]),
        node("e", "E", vec![]),
    ];
    let relations = process_relations(
        "t1",
        vec![declared("knows", &["a", "b"], &["e"]), declared("likes", &["e"], &["a", "b"])],
    );
    let rows = process_nodes(&"t1".to_string(), tree, relations);
    assert_eq!(
        rows,
        vec![
            entity("a", "a", "A", vec![]),
            edge("a", "OUT", "ISCHILD", "a/b", "b"),
            edge("a", "OUT", "ISCHILD", "a/d", "d"),
            entity("a/b", "b", "B", vec![]),
            edge("a/b", "IN", "ISPARENT", "a", "a"),
            edge("a/b", "OUT", "knows", "e", "e"),
            edge("a/b", "IN", "likes", "e", "e"),
            edge("a/b", "OUT", "ISCHILD", "a/b/c", "c"),
            entity("a/b/c", "c", "C", vec![]),
            edge("a/b/c", "IN", "ISPARENT", "a/b", "b"),
            entity("a/d", "d", "D", vec![]),
            edge("a/d", "IN", "ISPARENT", "a", "a"),
            entity("e", "e", "E", vec![]),
            edge("e", "IN", "knows", "a/b", "b"),
            edge("e", "OUT", "likes", "a/b", "b"),
        ]
    );
}

#[test]
fn tags_stand_on_the_entity_row_only() {
    let mut tagged = node("a", "x", vec![node("b", "y", vec![])]);
    tagged.tags = Some(vec![
        Tag { type_field: "colour".to_string(), value: "red".to_string() },
        Tag { type_field: "size".to_string(), value: "big".to_string() },
    ]);
    let rows = process_nodes(&"t1".to_string(), vec![tagged], RelationMap::new());
    assert_eq!(
        rows[0].tags,
        Some(vec![
            ("colour".to_string(), "red".to_string()),
            ("size".to_string(), "big".to_string()),
        ])
    );
    assert_eq!(rows[1].tags, None);
    assert_eq!(rows[2].tags, Some(vec![]));
    assert_eq!(rows[3].tags, None);
}

#[test]
fn flattening_appends_to_the_rows_given() {
    let mut rows = vec![entity("kept", "kept", "k", vec![])];
    let parent = Some((id("up"), "up".to_string()));
    flatten_nodes(
        &"t1".to_string(),
        &vec![node("n", "N", vec![])],
        &"up/".to_string(),
        &parent,
        &mut rows,
        &RelationMap::new(),
    );
    assert_eq!(
        rows,
        vec![
            entity("kept", "kept", "k", vec![]),
            entity("up/n", "n", "N", vec![]),
            edge("up/n", "IN", "ISPARENT", "up", "up"),
        ]
    );
}

#[test]
fn no_nodes_give_no_rows() {
    let rows = process_nodes(&"t1".to_string(), vec![], RelationMap::new());
    assert!(rows.is_empty());
}

#[test]
fn relation_without_a_node_at_its_end_gives_no_row_there() {
    let rows = file_rows(
        &"t1".to_string(),
        File {
            nodes: vec![node("a", "x", vec![])],
            relations: vec![declared("knows", &["a"], &["missing"])],
        },
    );
    assert_eq!(
        rows,
        vec![entity("a", "a", "x", vec![]), edge("a", "OUT", "knows", "missing", "missing")]
    );
}

#[test]
fn every_node_has_exactly_one_entity_row() {
    let tree = vec![
        node("a", "A", vec![node("b", "B", vec![node("c", "C", vec![])]), node("d", "D", vec![])]),
        node("e", "E", vec![]),
    ];
    let total = count_nodes(&tree);
    let rows = process_nodes(&"t1".to_string(), tree, RelationMap::new());
    let entities: Vec<&DbNode> = rows
        .iter()
        .filter(|r| r.direction.is_none() && r.relation.is_none() && r.relates_to.is_none())
        .collect();
    assert_eq!(entities.len(), total);
    assert_eq!(total, 5);
    let urls: Vec<&str> = entities.iter().map(|r| r.url.as_str()).collect();
    assert_eq!(urls, vec!["a", "a/b", "a/b/c", "a/d", "e"]);
}

#[test]
fn every_edge_has_a_row_on_each_end() {
    let rows = file_rows(
        &"t1".to_string(),
        File {
            nodes: vec![
                node("a", "A", vec![node("b", "B", vec![]), node("d", "D", vec![])]),
                node("e", "E", vec![]),
            ],
            relations: vec![declared("knows", &["a", "b"], &["e"])],
        },
    );
    for row in rows.iter().filter(|r| r.direction.as_deref() == Some("OUT")) {
        let far = NodeId::parse_str(row.relates_to.as_ref().unwrap()).expect("an identity");
        let back_relation = match row.relation.as_deref() {
            Some("ISCHILD") => "ISPARENT".to_string(),
            Some(other) => other.to_string(),
            None => unreachable!(),
        };
        let matched = rows.iter().any(|r| {
            r.uuid == far
                && r.direction.as_deref() == Some("IN")
                && r.relation.as_ref() == Some(&back_relation)
                && r.relates_to.as_ref() == Some(&row.uuid.to_string())
        });
        assert!(matched);
    }
    let outbound = rows.iter().filter(|r| r.direction.as_deref() == Some("OUT")).count();
    let inbound = rows.iter().filter(|r| r.direction.as_deref() == Some("IN")).count();
    assert_eq!(outbound, 3);
    assert_eq!(inbound, 3);
}

#[test]
fn partition_holds_the_entity_row_and_the_edges_of_its_node() {
    let rows = file_rows(
        &"t1".to_string(),
        File {
            nodes: vec![
                node("a", "A", vec![node("b", "B", vec![]), node("d", "D", vec![])]),
                node("e", "E", vec![]),
            ],
            relations: vec![declared("knows", &["a", "b"], &["e"])],
        },
    );
    let of_b: Vec<DbNode> = rows.iter().filter(|r| r.uuid == id("a/b")).cloned().collect();
    assert_eq!(
        of_b,
        vec![
            entity("a/b", "b", "B", vec![]),
            edge("a/b", "IN", "ISPARENT", "a", "a"),
            edge("a/b", "OUT", "knows", "e", "e"),
        ]
    );
    let read = read_back(&rows, &id("a/b").to_string(), true, true);
    assert_eq!(read.len(), 3);
    assert_eq!(read[0].url, "a/b");
    assert_eq!(read[0].direction, Some(String::new()));
}

#[test]
fn entity_row_is_named_by_the_last_segment_of_its_path() {
    let tree =
        vec![node("a", "A", vec![node("b", "B", vec![node("c", "C", vec![])])]), node("e", "E", vec![])];
    let rows = process_nodes(&"t1".to_string(), tree, RelationMap::new());
    let mut seen = 0;
    for row in rows.iter().filter(|r| r.direction.is_none()) {
        assert_eq!(last_segment_of(&row.url), row.name);
        seen += 1;
    }
    assert_eq!(seen, 4);
}

#[test]
fn name_with_a_slash_is_not_the_last_segment() {
    let rows = process_nodes(&"t1".to_string(), vec![node("x/y", "A", vec![])], RelationMap::new());
    assert_eq!(rows[0].name, "x/y");
    assert_eq!(rows[0].url, "x/y");
    assert_eq!(last_segment_of(&rows[0].url), "y");
}

#[test]
fn projected_read_has_no_tags() {
    let mut tagged = node("a", "x", vec![]);
    tagged.tags = Some(vec![Tag { type_field: "k".to_string(), value: "v".to_string() }]);
    let rows = process_nodes(&"t1".to_string(), vec![tagged], RelationMap::new());
    let with_tags = Node::from(read_back(&rows, &id("a").to_string(), true, false)).expect("a");
    assert_eq!(with_tags.tags, vec![("k".to_string(), "v".to_string())]);
    let without = Node::from(read_back(&rows, &id("a").to_string(), false, false)).expect("a");
    assert_eq!(without.tags, vec![]);
    assert_eq!(without.name, "a");
}

#[test]
fn unknown_node_reads_as_none() {
    let rows = process_nodes(&"t1".to_string(), vec![node("a", "x", vec![])], RelationMap::new());
    let read = read_back(&rows, &id("nowhere").to_string(), true, true);
    assert!(read.is_empty());
    assert_eq!(Node::from(read), None);
}
