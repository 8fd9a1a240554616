//! The rows of the `nodes` table. One table holds the entity row of each node
//! and, under the same partition key, one row for each of its edges.

use vstd::prelude::*;

use crate::data::model::{get_id_from_url, id_of, NodeId, Relation};
use crate::data::source_model::Tag;
use crate::edge::Direction;

verus! {

/// A full row: the four key columns and the value columns.
#[derive(Debug, Clone, PartialEq, Eq)]
pub struct DbNode {
    pub uuid: NodeId,
    pub direction: Option<String>,
    pub relation: Option<String>,
    pub relates_to: Option<String>,
    pub name: String,
    pub ingestion_id: String,
    pub url: String,
    pub node_type: String,
    pub tags: Option<Vec<(String, String)>>,
}

/// The projection of an entity row that carries neither key columns nor
/// tags.
#[derive(Debug, Clone, PartialEq, Eq)]
pub struct DbNodeSimple {
    pub uuid: NodeId,
    pub name: String,
    pub node_type: String,
    pub url: String,
    pub ingestion_id: String,
}

/// The projection of a row that a traversal reads.
#[derive(Debug, Clone, PartialEq, Eq)]
pub struct DbRelation {
    pub uuid: NodeId,
    pub direction: Option<String>,
    pub relation: Option<String>,
    pub relates_to: Option<String>,
    pub name: String,
    pub node_type: String,
}

/// What a [`DbNode`] holds.
pub struct DbNodeView {
    pub uuid: u128,
    pub direction: Option<Seq<char>>,
    pub relation: Option<Seq<char>>,
    pub relates_to: Option<Seq<char>>,
    pub name: Seq<char>,
    pub ingestion_id: Seq<char>,
    pub url: Seq<char>,
    pub node_type: Seq<char>,
    pub tags: Option<Seq<(Seq<char>, Seq<char>)>>,
}

/// What a [`DbNodeSimple`] holds.
pub struct DbNodeSimpleView {
    pub uuid: u128,
    pub name: Seq<char>,
    pub node_type: Seq<char>,
    pub url: Seq<char>,
    pub ingestion_id: Seq<char>,
}

/// What a [`DbRelation`] holds.
pub struct DbRelationView {
    pub uuid: u128,
    pub direction: Option<Seq<char>>,
    pub relation: Option<Seq<char>>,
    pub relates_to: Option<Seq<char>>,
    pub name: Seq<char>,
    pub node_type: Seq<char>,
}

impl View for DbNode {
    type V = DbNodeView;

    open spec fn view(&self) -> DbNodeView {
        DbNodeView {
            uuid: self.uuid.bits,
            direction: self.direction.deep_view(),
            relation: self.relation.deep_view(),
            relates_to: self.relates_to.deep_view(),
            name: self.name@,
            ingestion_id: self.ingestion_id@,
            url: self.url@,
            node_type: self.node_type@,
            tags: self.tags.deep_view(),
        }
    }
}

impl DeepView for DbNode {
    type V = DbNodeView;

    open spec fn deep_view(&self) -> DbNodeView {
        self@
    }
}

impl View for DbNodeSimple {
    type V = DbNodeSimpleView;

    open spec fn view(&self) -> DbNodeSimpleView {
        DbNodeSimpleView {
            uuid: self.uuid.bits,
            name: self.name@,
            node_type: self.node_type@,
            url: self.url@,
            ingestion_id: self.ingestion_id@,
        }
    }
}

impl DeepView for DbNodeSimple {
    type V = DbNodeSimpleView;

    open spec fn deep_view(&self) -> DbNodeSimpleView {
        self@
    }
}

impl View for DbRelation {
    type V = DbRelationView;

    open spec fn view(&self) -> DbRelationView {
        DbRelationView {
            uuid: self.uuid.bits,
            direction: self.direction.deep_view(),
            relation: self.relation.deep_view(),
            relates_to: self.relates_to.deep_view(),
            name: self.name@,
            node_type: self.node_type@,
        }
    }
}

impl DeepView for DbRelation {
    type V = DbRelationView;

    open spec fn deep_view(&self) -> DbRelationView {
        self@
    }
}

impl DbNodeView {
    /// An entity row has no direction, relation or far end.
    pub open spec fn is_entity(self) -> bool {
        self.direction is None && self.relation is None && self.relates_to is None
    }
}

/// The entity row of the node at `url`.
pub open spec fn entity_row(
    ingestion_id: Seq<char>,
    url: Seq<char>,
    name: Seq<char>,
    node_type: Seq<char>,
    tags: Seq<(Seq<char>, Seq<char>)>,
) -> DbNodeView {
    DbNodeView {
        uuid: id_of(ingestion_id, url),
        direction: None,
        relation: None,
        relates_to: None,
        name,
        ingestion_id,
        url,
        node_type,
        tags: Some(tags),
    }
}

/// An edge row in the partition of `uuid`. Of the value columns only the name
/// of the far end is filled.
pub open spec fn edge_row(
    uuid: u128,
    direction: Seq<char>,
    relation: Seq<char>,
    relates_to: Seq<char>,
    relates_to_name: Seq<char>,
) -> DbNodeView {
    DbNodeView {
        uuid,
        direction: Some(direction),
        relation: Some(relation),
        relates_to: Some(relates_to),
        name: relates_to_name,
        ingestion_id: Seq::empty(),
        url: Seq::empty(),
        node_type: Seq::empty(),
        tags: None,
    }
}

/// The text of the direction of a relation, seen from its owner.
pub open spec fn direction_of(outbound: bool) -> Seq<char> {
    if outbound {
        Direction::Out.text()
    } else {
        Direction::In.text()
    }
}

impl DbNode {
    /// The entity row of a node. Its key is derived from the ingestion and
    /// the node's path.
    pub fn root(
        ingestion_id: String,
        url: String,
        name: String,
        node_type: String,
        source_tags: Vec<Tag>,
    ) -> (row: DbNode)
        ensures
            row@ == entity_row(ingestion_id@, url@, name@, node_type@, source_tags.deep_view()),
    {
        let id = get_id_from_url(ingestion_id.clone(), url.clone());
        let mut tags: Vec<(String, String)> = Vec::new();
        let mut i: usize = 0;
        while i < source_tags.len()
            invariant
                i <= source_tags.len(),
                tags.len() == i,
                forall|j: int| 0 <= j < i ==> (#[trigger] tags@[j]).deep_view() == source_tags@[j]@,
            decreases source_tags.len() - i,
        {
            let t = &source_tags[i];
            tags.push((t.type_field.clone(), t.value.clone()));
            i += 1;
        }
        assert(tags.deep_view() =~= source_tags.deep_view());
        DbNode {
            uuid: id,
            direction: None,
            relation: None,
            relates_to: None,
            name,
            ingestion_id,
            url,
            node_type,
            tags: Some(tags),
        }
    }

    /// An edge row in the partition of `uuid`.
    pub fn relation(
        uuid: NodeId,
        direction: String,
        relation: String,
        relates_to: String,
        relates_to_name: String,
    ) -> (row: DbNode)
        ensures
            row@ == edge_row(uuid.bits, direction@, relation@, relates_to@, relates_to_name@),
    {
        DbNode {
            uuid,
            direction: Some(direction),
            relation: Some(relation),
            relates_to: Some(relates_to),
            name: relates_to_name,
            ingestion_id: String::new(),
            url: String::new(),
            node_type: String::new(),
            tags: None,
        }
    }

    /// Lifts a projected entity row into the full shape. The key columns and
    /// the tags are absent.
    pub fn from_simple(node: DbNodeSimple) -> (row: DbNode)
        ensures
            row@ == (DbNodeView {
                uuid: node@.uuid,
                direction: None,
                relation: None,
                relates_to: None,
                name: node@.name,
                ingestion_id: node@.ingestion_id,
                url: node@.url,
                node_type: node@.node_type,
                tags: None,
            }),
    {
        DbNode {
            uuid: node.uuid,
            direction: None,
            relation: None,
            relates_to: None,
            name: node.name,
            ingestion_id: node.ingestion_id,
            url: node.url,
            node_type: node.node_type,
            tags: None,
        }
    }

    /// The edge row that stores `relation` in the partition of `uuid`.
    pub fn from_rel(uuid: NodeId, relation: &Relation) -> (row: DbNode)
        ensures
            row@ == edge_row(
                uuid.bits,
                direction_of(relation@.outbound),
                relation@.rel_type,
                relation@.relates_to,
                relation@.target_name,
            ),
    {
        let direction = if relation.outbound {
            Direction::Out.to_string()
        } else {
            Direction::In.to_string()
        };
        DbNode {
            uuid,
            direction: Some(direction),
            relation: Some(relation.rel_type.clone()),
            relates_to: Some(relation.relates_to.clone()),
            name: relation.target_name.clone(),
            ingestion_id: String::new(),
            url: String::new(),
            node_type: String::new(),
            tags: None,
        }
    }
}

impl Default for DbNode {
    fn default() -> (row: DbNode)
        ensures
            row@ == (DbNodeView {
                uuid: 0,
                direction: None,
                relation: None,
                relates_to: None,
                name: Seq::empty(),
                ingestion_id: Seq::empty(),
                url: Seq::empty(),
                node_type: Seq::empty(),
                tags: None,
            }),
    {
        DbNode {
            uuid: NodeId { bits: 0 },
            direction: None,
            relation: None,
            relates_to: None,
            name: String::new(),
            ingestion_id: String::new(),
            url: String::new(),
            node_type: String::new(),
            tags: None,
        }
    }
}

impl Default for DbNodeSimple {
    fn default() -> (row: DbNodeSimple)
        ensures
            row@ == (DbNodeSimpleView {
                uuid: 0,
                name: Seq::empty(),
                node_type: Seq::empty(),
                url: Seq::empty(),
                ingestion_id: Seq::empty(),
            }),
    {
        DbNodeSimple {
            uuid: NodeId { bits: 0 },
            name: String::new(),
            node_type: String::new(),
            url: String::new(),
            ingestion_id: String::new(),
        }
    }
}

impl Default for DbRelation {
    fn default() -> (row: DbRelation)
        ensures
            row@ == (DbRelationView {
                uuid: 0,
                direction: None,
                relation: None,
                relates_to: None,
                name: Seq::empty(),
                node_type: Seq::empty(),
            }),
    {
        DbRelation {
            uuid: NodeId { bits: 0 },
            direction: None,
            relation: None,
            relates_to: None,
            name: String::new(),
            node_type: String::new(),
        }
    }
}

} // verus!
