//! The decisions of the storage service: which statement answers a read,
//! what an insert binds, how the schema file is cut into statements, and the
//! order in which the service comes up.

use vstd::prelude::*;

use crate::data::model::{uuid_parse, BadRequestError, NodeId};
use crate::db::model::{DbNode, DbNodeSimple, DbNodeSimpleView, DbNodeView};

verus! {

pub const INSERT_QUERY: &'static str =
    "INSERT INTO graph.nodes (id, direction, relation, relates_to, name, ingestion_id, url, item_type, tags) VALUES (?, ?, ?, ?, ?, ?, ?, ?, ?)";

pub const GET_ONE_QUERY: &'static str =
    "SELECT id, name, item_type, url, ingestion_id FROM graph.nodes WHERE id = ? and direction = '' and relation = ''";

pub const GET_ONE_QUERY_TAGS: &'static str =
    "SELECT id, direction, relation, relates_to, name, ingestion_id, url, item_type, tags FROM graph.nodes WHERE id = ? and direction = '' and relation = ''";

pub const GET_ONE_QUERY_RELATIONS: &'static str =
    "SELECT id, direction, relation, relates_to, name, ingestion_id, url, item_type, tags FROM graph.nodes WHERE id = ?";

pub const GET_ONE_QUERY_DIRECTION: &'static str =
    "SELECT id, direction, relation, relates_to, name, item_type FROM graph.nodes WHERE id = ? and direction in ('',?)";

pub const GET_ONE_QUERY_DIRECTION_RELATION: &'static str =
    "SELECT id, direction, relation, relates_to, name, item_type FROM graph.nodes WHERE id = ? and direction in ('',?) and relation in ('',?)";

/// The statement that answers a read of one node.
#[derive(Clone, Copy, Debug, PartialEq, Eq, Structural)]
pub enum NodeStatement {
    /// The entity row alone, without key columns and tags.
    Entity,
    /// The entity row alone, in the full shape.
    EntityWithTags,
    /// The whole partition: the entity row and every edge row.
    Partition,
}

impl NodeStatement {
    /// The statement for a read that asks for tags, relations, both or
    /// neither. Relations need the whole partition; without them the entity
    /// row is enough, projected where not even tags are asked for.
    pub fn select(tags: bool, relations: bool) -> (statement: NodeStatement)
        ensures
            statement == if relations {
                NodeStatement::Partition
            } else if tags {
                NodeStatement::EntityWithTags
            } else {
                NodeStatement::Entity
            },
    {
        if relations {
            NodeStatement::Partition
        } else if tags {
            NodeStatement::EntityWithTags
        } else {
            NodeStatement::Entity
        }
    }

    /// The text of the statement.
    pub fn text(&self) -> (text: &'static str)
        ensures
            text@ == match *self {
                NodeStatement::Entity => GET_ONE_QUERY@,
                NodeStatement::EntityWithTags => GET_ONE_QUERY_TAGS@,
                NodeStatement::Partition => GET_ONE_QUERY_RELATIONS@,
            },
    {
        match self {
            NodeStatement::Entity => GET_ONE_QUERY,
            NodeStatement::EntityWithTags => GET_ONE_QUERY_TAGS,
            NodeStatement::Partition => GET_ONE_QUERY_RELATIONS,
        }
    }

    /// Whether the rows come back projected and have to be lifted into the
    /// full shape.
    pub fn is_projection(&self) -> (projected: bool)
        ensures
            projected == (*self == NodeStatement::Entity),
    {
        match self {
            NodeStatement::Entity => true,
            _ => false,
        }
    }
}

/// A read of one node: the statement to run and the identity to bind.
#[derive(Clone, Copy, Debug, PartialEq, Eq, Structural)]
pub struct NodeRead {
    pub id: NodeId,
    pub statement: NodeStatement,
}

/// Plans the read of the node that `id` names. A text that is no identity
/// is a bad request.
pub fn plan_node_read(id: &str, tags: bool, relations: bool) -> (plan: Result<
    NodeRead,
    BadRequestError,
>)
    ensures
        match plan {
            Ok(read) => uuid_parse(id@) == Some(read.id.bits) && read.statement == if relations {
                NodeStatement::Partition
            } else if tags {
                NodeStatement::EntityWithTags
            } else {
                NodeStatement::Entity
            },
            Err(_) => uuid_parse(id@) is None,
        },
{
    match NodeId::parse_str(id) {
        Ok(id) => Ok(NodeRead { id, statement: NodeStatement::select(tags, relations) }),
        Err(e) => Err(e),
    }
}

/// The full shape of a projected entity row.
pub open spec fn lifted(row: DbNodeSimpleView) -> DbNodeView {
    DbNodeView {
        uuid: row.uuid,
        direction: None,
        relation: None,
        relates_to: None,
        name: row.name,
        ingestion_id: row.ingestion_id,
        url: row.url,
        node_type: row.node_type,
        tags: None,
    }
}

/// Lifts projected rows into the full shape, in their order.
pub fn lift_rows(rows: Vec<DbNodeSimple>) -> (full: Vec<DbNode>)
    ensures
        full.deep_view() == rows.deep_view().map_values(|row: DbNodeSimpleView| lifted(row)),
{
    let ghost wanted = rows.deep_view().map_values(|row: DbNodeSimpleView| lifted(row));
    let mut full: Vec<DbNode> = Vec::new();
    for row in it: rows
        invariant
            it.seq() == rows@,
            full.len() == it.index(),
            forall|i: int| 0 <= i < full.len() ==> (#[trigger] full@[i])@ == lifted(rows@[i]@),
    {
        full.push(DbNode::from_simple(row));
    }
    assert(full.deep_view() =~= wanted);
    full
}

/// How many replicas have to answer a statement.
#[derive(Clone, Copy, Debug, PartialEq, Eq, Structural)]
pub enum Consistency {
    Any,
    One,
}

/// The statements that the service prepares once and runs many times.
#[derive(Clone, Copy, Debug, PartialEq, Eq, Structural)]
pub enum PreparedStatement {
    /// The upsert of one row.
    Insert,
    /// The entity row and the edges of one direction.
    Traversal,
    /// The entity row and the edges of one direction and one relation.
    TraversalByRelation,
}

impl PreparedStatement {
    /// The text of the statement.
    pub fn text(&self) -> (text: &'static str)
        ensures
            text@ == match *self {
                PreparedStatement::Insert => INSERT_QUERY@,
                PreparedStatement::Traversal => GET_ONE_QUERY_DIRECTION@,
                PreparedStatement::TraversalByRelation => GET_ONE_QUERY_DIRECTION_RELATION@,
            },
    {
        match self {
            PreparedStatement::Insert => INSERT_QUERY,
            PreparedStatement::Traversal => GET_ONE_QUERY_DIRECTION,
            PreparedStatement::TraversalByRelation => GET_ONE_QUERY_DIRECTION_RELATION,
        }
    }

    /// Writes are acknowledged by any replica, reads answered by one.
    pub fn consistency(&self) -> (level: Consistency)
        ensures
            level == if *self == PreparedStatement::Insert {
                Consistency::Any
            } else {
                Consistency::One
            },
    {
        match self {
            PreparedStatement::Insert => Consistency::Any,
            _ => Consistency::One,
        }
    }
}

/// A read for a traversal: the identity, the direction and, where the
/// traversal follows one relation only, that relation.
#[derive(Debug, Clone, PartialEq, Eq)]
pub struct TraversalRead {
    pub id: NodeId,
    pub direction: String,
    pub relation: Option<String>,
}

impl TraversalRead {
    /// The statement that answers the read: the one filtered by relation
    /// where a relation is given.
    pub fn statement(&self) -> (statement: PreparedStatement)
        ensures
            statement == if self.relation is Some {
                PreparedStatement::TraversalByRelation
            } else {
                PreparedStatement::Traversal
            },
    {
        match &self.relation {
            Some(_) => PreparedStatement::TraversalByRelation,
            None => PreparedStatement::Traversal,
        }
    }
}

/// Plans the read, for a traversal, of the node that `id` names. A text that
/// is no identity is a bad request.
pub fn plan_traversal_read(id: &str, direction: &str, relation_type: &Option<String>) -> (plan:
    Result<TraversalRead, BadRequestError>)
    ensures
        match plan {
            Ok(read) => {
                &&& uuid_parse(id@) == Some(read.id.bits)
                &&& read.direction@ == direction@
                &&& read.relation.deep_view() == relation_type.deep_view()
            },
            Err(_) => uuid_parse(id@) is None,
        },
{
    match NodeId::parse_str(id) {
        Ok(id) => {
            let relation = match relation_type {
                Some(relation) => Some(relation.clone()),
                None => None,
            };
            Ok(TraversalRead { id, direction: direction.to_owned(), relation })
        },
        Err(e) => Err(e),
    }
}

/// The values that an insert binds, column by column.
#[derive(Debug, Clone, PartialEq, Eq)]
pub struct InsertValues {
    pub id: NodeId,
    pub direction: String,
    pub relation: String,
    pub relates_to: String,
    pub name: String,
    pub ingestion_id: String,
    pub url: String,
    pub item_type: String,
    pub tags: Vec<(String, String)>,
}

/// What an [`InsertValues`] holds.
pub struct InsertValuesView {
    pub id: u128,
    pub direction: Seq<char>,
    pub relation: Seq<char>,
    pub relates_to: Seq<char>,
    pub name: Seq<char>,
    pub ingestion_id: Seq<char>,
    pub url: Seq<char>,
    pub item_type: Seq<char>,
    pub tags: Seq<(Seq<char>, Seq<char>)>,
}

impl View for InsertValues {
    type V = InsertValuesView;

    open spec fn view(&self) -> InsertValuesView {
        InsertValuesView {
            id: self.id.bits,
            direction: self.direction@,
            relation: self.relation@,
            relates_to: self.relates_to@,
            name: self.name@,
            ingestion_id: self.ingestion_id@,
            url: self.url@,
            item_type: self.item_type@,
            tags: self.tags.deep_view(),
        }
    }
}

/// The text of a column that may be absent: empty where it is.
pub open spec fn or_empty(text: Option<Seq<char>>) -> Seq<char> {
    match text {
        Some(text) => text,
        None => Seq::empty(),
    }
}

/// The values bound for `row`. An absent direction, relation or far end is
/// stored as the empty text, absent tags as no tags.
pub open spec fn bound_values(row: DbNodeView) -> InsertValuesView {
    InsertValuesView {
        id: row.uuid,
        direction: or_empty(row.direction),
        relation: or_empty(row.relation),
        relates_to: or_empty(row.relates_to),
        name: row.name,
        ingestion_id: row.ingestion_id,
        url: row.url,
        item_type: row.node_type,
        tags: match row.tags {
            Some(tags) => tags,
            None => Seq::empty(),
        },
    }
}

fn text_or_empty(text: Option<String>) -> (filled: String)
    ensures
        filled@ == or_empty(text.deep_view()),
{
    match text {
        Some(text) => text,
        None => String::new(),
    }
}

/// The values to bind when `entry` is inserted.
pub fn bind_insert(entry: DbNode) -> (values: InsertValues)
    ensures
        values@ == bound_values(entry@),
{
    let tags = match entry.tags {
        Some(tags) => tags,
        None => Vec::new(),
    };
    assert(tags.deep_view() =~= bound_values(entry@).tags);
    InsertValues {
        id: entry.uuid,
        direction: text_or_empty(entry.direction),
        relation: text_or_empty(entry.relation),
        relates_to: text_or_empty(entry.relates_to),
        name: entry.name,
        ingestion_id: entry.ingestion_id,
        url: entry.url,
        item_type: entry.node_type,
        tags,
    }
}

} // verus!
