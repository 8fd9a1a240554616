use graph_ingest::data::model::{get_id_from_url, NodeId, TraversalNode};
use graph_ingest::data::source_model::{File, Nodes, Relation as SourceRelation};
use graph_ingest::db::model::{DbNode, DbRelation};
use graph_ingest::db::scylladb::{bind_insert, plan_traversal_read, PreparedStatement};
use graph_ingest::flatten::file_rows;
use graph_ingest::traversal::{Traversal, TraversalAction};

fn leaf(name: &str, kind: &str) -> Nodes {
    branch(name, kind, vec![])
}

fn branch(name: &str, kind: &str, children: Vec<Nodes>) -> Nodes {
    Nodes {
        name: name.to_string(),
        type_field: kind.to_string(),
        children,
        tags: None,
        total_children: None,
    }
}

fn knows(source: &[&str], target: &[&str]) -> SourceRelation {
    SourceRelation {
        type_field: "knows".to_string(),
        source: source.iter().map(|s| s.to_string()).collect(),
        target: target.iter().map(|s| s.to_string()).collect(),
        tags: None,
    }
}

fn ident(url: &str) -> NodeId {
    get_id_from_url("t1".to_string(), url.to_string())
}

/// The chain a -> b -> c -> d of children, with x beside a.
fn chain(relations: Vec<SourceRelation>) -> Vec<DbNode> {
    let d = leaf("d", "D");
    let c = branch("c", "C", vec![d]);
    let b = branch("b", "B", vec![c]);
    let a = branch("a", "A", vec![b]);
    file_rows(&"t1".to_string(), File { nodes: vec![a, leaf("x", "X")], relations })
}

/// What the traversal statements give back once `rows` are stored.
fn scan(
    rows: &[DbNode],
    id: &str,
    direction: &str,
    relation: &Option<String>,
) -> Option<Vec<DbRelation>> {
    let plan = plan_traversal_read(id, direction, relation).ok()?;
    let by_relation = plan.statement() == PreparedStatement::TraversalByRelation;
    let mut found: Vec<(String, String, String, DbRelation)> = Vec::new();
    for row in rows {
        let bound = bind_insert(row.clone());
        if bound.id != plan.id {
            continue;
        }
        if !(bound.direction.is_empty() || bound.direction == plan.direction) {
            continue;
        }
        if by_relation
            && !(bound.relation.is_empty() || Some(&bound.relation) == plan.relation.as_ref())
        {
            continue;
        }
        let read = DbRelation {
            uuid: bound.id,
            direction: Some(bound.direction.clone()),
            relation: Some(bound.relation.clone()),
            relates_to: Some(bound.relates_to.clone()),
            name: bound.name,
            node_type: bound.item_type,
        };
        found.push((bound.direction, bound.relation, bound.relates_to, read));
    }
    found.sort_by(|a, b| (&a.0, &a.1, &a.2).cmp(&(&b.0, &b.1, &b.2)));
    Some(found.into_iter().map(|f| f.3).collect())
}

fn traverse(
    rows: &[DbNode],
    id: &str,
    direction: &str,
    relation: Option<String>,
    max_depth: usize,
) -> Option<TraversalNode> {
    let (mut traversal, mut action) = Traversal::start(id.to_string(), max_depth);
    let mut reads = 0;
    loop {
        match action {
            TraversalAction::Read { id } => {
                assert!(traversal.is_awaiting());
                reads += 1;
                assert!(reads < 1000);
                let next = traversal.step(scan(rows, &id, direction, &relation));
                traversal = next.0;
                action = next.1;
            }
            TraversalAction::Done { tree } => {
                assert!(!traversal.is_awaiting());
                return tree;
            }
        }
    }
}

fn names(tree: &TraversalNode, out: &mut Vec<(usize, String)>) {
    out.push((tree.depth, tree.name.clone()));
    for child in &tree.relations {
        names(child, out);
    }
}

fn deepest(tree: &TraversalNode) -> usize {
    tree.relations.iter().map(deepest).fold(tree.depth, usize::max)
}

fn levelled(tree: &TraversalNode, depth: usize) -> bool {
    tree.depth == depth && tree.relations.iter().all(|child| levelled(child, depth + 1))
}

fn entity(name: &str, kind: &str) -> DbRelation {
    DbRelation {
        uuid: ident(name),
        direction: Some(String::new()),
        relation: Some(String::new()),
        relates_to: Some(String::new()),
        name: name.to_string(),
        node_type: kind.to_string(),
    }
}

fn out_edge(owner: &str, far: &str) -> DbRelation {
    DbRelation {
        uuid: ident(owner),
        direction: Some("OUT".to_string()),
        relation: Some("ISCHILD".to_string()),
        relates_to: Some(far.to_string()),
        name: far.to_string(),
        node_type: String::new(),
    }
}

#[test]
fn traversal_stops_at_the_depth_bound() {
    let rows = chain(vec![]);
    let tree = traverse(&rows, &ident("a").to_string(), "OUT", None, 2).expect("a tree");
    let mut seen = Vec::new();
    names(&tree, &mut seen);
    assert_eq!(
        seen,
        vec![(0, "a".to_string()), (1, "b".to_string()), (2, "c".to_string())]
    );
    assert_eq!(tree.uuid, ident("a"));
    assert_eq!(tree.node_type, "A");
    assert_eq!(tree.relation_ids, vec![ident("a/b").to_string()]);
    let c = &tree.relations[0].relations[0];
    assert_eq!(c.relation_ids, vec![ident("a/b/c/d").to_string()]);
    assert!(c.relations.is_empty());
}

#[test]
fn traversal_with_relation_filter_leaves_other_relations_out() {
    let rows = chain(vec![knows(&["a"], &["x"])]);
    let tree = traverse(&rows, &ident("a").to_string(), "OUT", Some("ISCHILD".to_string()), 5)
        .expect("a tree");
    let mut seen = Vec::new();
    names(&tree, &mut seen);
    assert_eq!(
        seen,
        vec![
            (0, "a".to_string()),
            (1, "b".to_string()),
            (2, "c".to_string()),
            (3, "d".to_string())
        ]
    );
    assert!(!seen.iter().any(|(_, name)| name == "x"));
}

#[test]
fn traversal_without_filter_follows_every_relation() {
    let rows = chain(vec![knows(&["a"], &["x"])]);
    let tree = traverse(&rows, &ident("a").to_string(), "OUT", None, 5).expect("a tree");
    let mut seen = Vec::new();
    names(&tree, &mut seen);
    assert_eq!(
        seen,
        vec![
            (0, "a".to_string()),
            (1, "b".to_string()),
            (2, "c".to_string()),
            (3, "d".to_string()),
            (1, "x".to_string())
        ]
    );
}

#[test]
fn traversal_against_the_edges_climbs_to_the_root() {
    let rows = chain(vec![]);
    let tree = traverse(&rows, &ident("a/b/c/d").to_string(), "IN", None, 10).expect("a tree");
    let mut seen = Vec::new();
    names(&tree, &mut seen);
    assert_eq!(
        seen,
        vec![
            (0, "d".to_string()),
            (1, "c".to_string()),
            (2, "b".to_string()),
            (3, "a".to_string())
        ]
    );
}

#[test]
fn traversal_to_depth_zero_reads_the_root_only() {
    let rows = chain(vec![]);
    let tree = traverse(&rows, &ident("a").to_string(), "OUT", None, 0).expect("a tree");
    assert_eq!(tree.depth, 0);
    assert!(tree.relations.is_empty());
    assert_eq!(tree.relation_ids.len(), 1);
}

#[test]
fn no_node_of_a_traversal_lies_below_the_bound() {
    let rows = chain(vec![knows(&["a"], &["x"]), knows(&["x"], &["a", "b"])]);
    for max_depth in 0..6 {
        let tree = traverse(&rows, &ident("a").to_string(), "OUT", None, max_depth)
            .expect("a tree");
        assert!(deepest(&tree) <= max_depth);
        assert!(levelled(&tree, 0));
    }
}

#[test]
fn cycle_is_cut_by_the_bound() {
    let rows = chain(vec![knows(&["a"], &["x"]), knows(&["x"], &["a"])]);
    let tree = traverse(&rows, &ident("a").to_string(), "OUT", Some("knows".to_string()), 4)
        .expect("a tree");
    let mut seen = Vec::new();
    names(&tree, &mut seen);
    assert_eq!(
        seen,
        vec![
            (0, "a".to_string()),
            (1, "x".to_string()),
            (2, "a".to_string()),
            (3, "x".to_string()),
            (4, "a".to_string())
        ]
    );
}

#[test]
fn traversal_from_an_unknown_node_gives_nothing() {
    let rows = chain(vec![]);
    assert_eq!(traverse(&rows, &ident("nowhere").to_string(), "OUT", None, 3), None);
}

#[test]
fn traversal_from_a_text_that_is_no_identity_gives_nothing() {
    let rows = chain(vec![]);
    assert_eq!(traverse(&rows, "not-an-identity", "OUT", None, 3), None);
}

#[test]
fn child_that_cannot_be_read_is_left_out() {
    let (traversal, action) = Traversal::start("root".to_string(), 3);
    assert_eq!(action, TraversalAction::Read { id: "root".to_string() });
    let (traversal, action) = traversal.step(Some(vec![
        entity("root", "R"),
        out_edge("root", "first"),
        out_edge("root", "second"),
        out_edge("root", "third"),
    ]));
    assert_eq!(action, TraversalAction::Read { id: "first".to_string() });
    let (traversal, action) = traversal.step(Some(vec![entity("first", "F")]));
    assert_eq!(action, TraversalAction::Read { id: "second".to_string() });
    let (traversal, action) = traversal.step(None);
    assert_eq!(action, TraversalAction::Read { id: "third".to_string() });
    let (traversal, action) = traversal.step(Some(vec![]));
    assert!(!traversal.is_awaiting());
    match action {
        TraversalAction::Done { tree: Some(tree) } => {
            assert_eq!(tree.name, "root");
            assert_eq!(tree.relation_ids, vec!["first", "second", "third"]);
            assert_eq!(tree.relations.len(), 1);
            assert_eq!(tree.relations[0].name, "first");
            assert_eq!(tree.relations[0].depth, 1);
        }
        other => panic!("unexpected {:?}", other),
    }
}

#[test]
fn children_keep_the_order_of_the_relation_ids() {
    let (traversal, _) = Traversal::start("root".to_string(), 1);
    let (traversal, _) = traversal.step(Some(vec![
        entity("root", "R"),
        out_edge("root", "one"),
        out_edge("root", "two"),
    ]));
    let (traversal, action) = traversal.step(Some(vec![entity("one", "O"), out_edge("one", "deep")]));
    assert_eq!(action, TraversalAction::Read { id: "two".to_string() });
    let (_, action) = traversal.step(Some(vec![entity("two", "T")]));
    match action {
        TraversalAction::Done { tree: Some(tree) } => {
            let below: Vec<&str> = tree.relations.iter().map(|c| c.name.as_str()).collect();
            assert_eq!(below, vec!["one", "two"]);
            assert!(tree.relations[0].relations.is_empty());
            assert_eq!(tree.relations[0].relation_ids, vec!["deep"]);
        }
        other => panic!("unexpected {:?}", other),
    }
}

#[test]
fn traversal_node_is_built_from_the_rows_of_its_partition() {
    let node = TraversalNode::from(
        vec![entity("n", "N"), out_edge("n", "k1"), out_edge("n", "k2")],
        7,
    )
    .expect("a node");
    assert_eq!(
        node,
        TraversalNode {
            uuid: ident("n"),
            depth: 7,
            name: "n".to_string(),
            node_type: "N".to_string(),
            relations: vec![],
            relation_ids: vec!["k1".to_string(), "k2".to_string()],
        }
    );
    assert_eq!(TraversalNode::from(vec![], 0), None);
}
