//! Node identity and the logical entities rebuilt from stored rows.

use vstd::arithmetic::power::pow;
use vstd::prelude::*;
use vstd::string::*;
use vstd::utf8::encode_utf8;

use crate::db::model::{DbNode, DbNodeView, DbRelation, DbRelationView};
use crate::edge::Direction;

verus! {

/// The namespace under which every node identity is derived: the high 64 bits
/// are all ones, the low 64 bits all zero.
pub const NAMESPACE_UUID: u128 = 0xffff_ffff_ffff_ffff_0000_0000_0000_0000u128;

/// The identity of a node: the 128 bits of its UUID, most significant byte
/// first.
#[derive(Clone, Copy, Debug, PartialEq, Eq, Hash, Structural)]
pub struct NodeId {
    pub bits: u128,
}

impl Default for NodeId {
    /// The nil identity.
    fn default() -> (id: NodeId)
        ensures
            id.bits == 0,
    {
        NodeId { bits: 0 }
    }
}

/// The version-5 (SHA-1) UUID of `name` within `namespace`, as 128 bits.
pub uninterp spec fn uuid_v5(namespace: u128, name: Seq<u8>) -> u128;

/// The identity of the node at `url` within the ingestion `ingestion_id`.
pub open spec fn id_of(ingestion_id: Seq<char>, url: Seq<char>) -> u128 {
    uuid_v5(NAMESPACE_UUID, encode_utf8(ingestion_id + seq!['/'] + url))
}

/// The lower-case hexadecimal digit of a value below 16.
pub open spec fn hex_digit(value: int) -> char {
    seq!['0', '1', '2', '3', '4', '5', '6', '7', '8', '9', 'a', 'b', 'c', 'd', 'e', 'f'][value]
}

/// The `k`-th of the 32 hexadecimal digits of `bits`, counted from the most
/// significant.
pub open spec fn nibble(bits: u128, k: int) -> int {
    (bits as int / pow(16, (31 - k) as nat)) % 16
}

/// How many hyphens stand before position `i` of the hyphenated text.
pub open spec fn hyphens_before(i: int) -> int {
    if i < 8 {
        0
    } else if i < 13 {
        1
    } else if i < 18 {
        2
    } else if i < 23 {
        3
    } else {
        4
    }
}

/// The text of an identity: 32 lower-case hexadecimal digits in groups of
/// 8, 4, 4, 4 and 12, with a hyphen between groups.
pub open spec fn hyphenated(bits: u128) -> Seq<char> {
    Seq::new(
        36,
        |i: int|
            if i == 8 || i == 13 || i == 18 || i == 23 {
                '-'
            } else {
                hex_digit(nibble(bits, i - hyphens_before(i)))
            },
    )
}

/// Calls `uuid::Uuid::new_v5`. The result is the name-based SHA-1 UUID of
/// `name` under `namespace`; it depends on the two arguments alone.
#[verifier::external_body]
fn uuid_new_v5(namespace: u128, name: &[u8]) -> (bits: u128)
    ensures
        bits == uuid_v5(namespace, name@),
{
    uuid::Uuid::new_v5(&uuid::Uuid::from_u128(namespace), name).as_u128()
}

/// The identity that `text` denotes, in any of the forms in which a UUID is
/// written; none where it denotes none.
pub uninterp spec fn uuid_parse(text: Seq<char>) -> Option<u128>;

/// Declares `uuid::Error`, which says why a text is no identity. Nothing is
/// known of what it holds.
#[verifier::external_type_specification]
#[verifier::external_body]
pub struct ExUuidError(uuid::Error);

/// Calls `to_string` on a `uuid::Uuid`, whose `Display` writes the
/// hyphenated lower-case form. What it writes, `uuid::Uuid::parse_str` reads
/// back as the same identity.
#[verifier::external_body]
fn uuid_to_string(bits: u128) -> (text: String)
    ensures
        text@ == hyphenated(bits),
        uuid_parse(text@) == Some(bits),
{
    uuid::Uuid::from_u128(bits).to_string()
}

/// Calls `uuid::Uuid::parse_str`, which reads the hyphenated, simple, URN and
/// braced forms. Whether and as what `input` is read depends on `input`
/// alone.
#[verifier::external_body]
fn uuid_parse_str(input: &str) -> (parsed: Result<u128, uuid::Error>)
    ensures
        match parsed {
            Ok(bits) => uuid_parse(input@) == Some(bits),
            Err(_) => uuid_parse(input@) is None,
        },
{
    match uuid::Uuid::parse_str(input) {
        Ok(id) => Ok(id.as_u128()),
        Err(e) => Err(e),
    }
}

/// A request named a node by a text that is no identity.
#[derive(Debug, PartialEq, Eq)]
pub struct BadRequestError {
    pub cause: uuid::Error,
}

impl NodeId {
    /// The text under which this identity is stored as the far end of an
    /// edge. Read back, it gives the same identity.
    pub fn to_string(&self) -> (text: String)
        ensures
            text@ == hyphenated(self.bits),
            uuid_parse(text@) == Some(self.bits),
    {
        uuid_to_string(self.bits)
    }

    /// Reads an identity from its text.
    pub fn parse_str(text: &str) -> (parsed: Result<NodeId, BadRequestError>)
        ensures
            match parsed {
                Ok(id) => uuid_parse(text@) == Some(id.bits),
                Err(_) => uuid_parse(text@) is None,
            },
    {
        match uuid_parse_str(text) {
            Ok(bits) => Ok(NodeId { bits }),
            Err(cause) => Err(BadRequestError { cause }),
        }
    }
}

/// Derives the identity of a node from the ingestion it belongs to and its
/// path within that ingestion.
pub fn get_id_from_url(ingestion_id: String, url: String) -> (id: NodeId)
    ensures
        id.bits == id_of(ingestion_id@, url@),
{
    proof {
        reveal_strlit("/");
    }
    let unique_id = ingestion_id.concat("/").concat(url.as_str());
    assert(unique_id@ =~= ingestion_id@ + seq!['/'] + url@);
    let bits = uuid_new_v5(NAMESPACE_UUID, unique_id.as_str().as_bytes());
    NodeId { bits }
}

/// The first position after the last `/` of `s`; 0 where `s` holds none.
pub open spec fn segment_start(s: Seq<char>) -> int
    decreases s.len(),
{
    if s.len() == 0 {
        0
    } else if s.last() == '/' {
        s.len() as int
    } else {
        segment_start(s.drop_last())
    }
}

/// The last `/`-separated segment of `s`.
pub open spec fn last_segment(s: Seq<char>) -> Seq<char> {
    s.subrange(segment_start(s), s.len() as int)
}

/// The last `/`-separated segment of a path.
#[verifier::loop_isolation(false)]
pub fn last_segment_of(url: &str) -> (name: String)
    ensures
        name@ == last_segment(url@),
{
    broadcast use vstd::string::group_string_axioms;

    let len = url.unicode_len();
    let mut start: usize = 0;
    let mut pos: usize = 0;
    for c in it: url.chars()
        invariant
            it.seq() == url@,
            pos == it.index(),
            start <= pos <= len,
            start == segment_start(url@.subrange(0, pos as int)),
    {
        assert(url@.subrange(0, pos + 1).drop_last() =~= url@.subrange(0, pos as int));
        pos = pos + 1;
        if c == '/' {
            start = pos;
        }
    }
    assert(url@.subrange(0, pos as int) =~= url@);
    url.substring_char(start, pos).to_owned()
}

/// An edge as its owner sees it.
#[derive(Debug, Clone, PartialEq, Eq)]
pub struct Relation {
    pub rel_type: String,
    pub outbound: bool,
    pub target_name: String,
    pub relates_to: String,
}

/// What a [`Relation`] holds.
pub struct RelationView {
    pub rel_type: Seq<char>,
    pub outbound: bool,
    pub target_name: Seq<char>,
    pub relates_to: Seq<char>,
}

impl View for Relation {
    type V = RelationView;

    open spec fn view(&self) -> RelationView {
        RelationView {
            rel_type: self.rel_type@,
            outbound: self.outbound,
            target_name: self.target_name@,
            relates_to: self.relates_to@,
        }
    }
}

impl DeepView for Relation {
    type V = RelationView;

    open spec fn deep_view(&self) -> RelationView {
        self@
    }
}

/// The relation of type `rel_type` whose far end is the node at `url`.
pub open spec fn relation_to(
    ingestion_id: Seq<char>,
    rel_type: Seq<char>,
    url: Seq<char>,
    outbound: bool,
) -> RelationView {
    RelationView {
        rel_type,
        outbound,
        target_name: last_segment(url),
        relates_to: hyphenated(id_of(ingestion_id, url)),
    }
}

impl Relation {
    /// A relation to the node at `url`: the far end is named by the last
    /// segment of `url` and identified by the identity derived from it.
    pub fn new(ingestion_id: String, rel_type: String, url: String, outbound: bool) -> (r: Self)
        ensures
            r@ == relation_to(ingestion_id@, rel_type@, url@, outbound),
            uuid_parse(r@.relates_to) == Some(id_of(ingestion_id@, url@)),
    {
        let name = last_segment_of(url.as_str());
        Relation {
            rel_type,
            target_name: name,
            relates_to: get_id_from_url(ingestion_id, url).to_string(),
            outbound,
        }
    }

    /// A relation from the columns of a stored edge row.
    pub fn from(name: String, rel_type: String, relates_to: String, outbound: bool) -> (r: Self)
        ensures
            r@ == (RelationView {
                rel_type: rel_type@,
                outbound,
                target_name: name@,
                relates_to: relates_to@,
            }),
    {
        Relation { rel_type, target_name: name, relates_to, outbound }
    }
}

/// A node as a reader receives it: its attributes, its tags and its edges.
#[derive(Debug, Clone, PartialEq, Eq)]
pub struct Node {
    pub uuid: NodeId,
    pub ingestion_id: String,
    pub name: String,
    pub url: String,
    pub node_type: String,
    pub tags: Vec<(String, String)>,
    pub relations: Vec<Relation>,
}

/// What a [`Node`] holds.
pub struct NodeView {
    pub uuid: u128,
    pub ingestion_id: Seq<char>,
    pub name: Seq<char>,
    pub url: Seq<char>,
    pub node_type: Seq<char>,
    pub tags: Seq<(Seq<char>, Seq<char>)>,
    pub relations: Seq<RelationView>,
}

impl View for Node {
    type V = NodeView;

    open spec fn view(&self) -> NodeView {
        NodeView {
            uuid: self.uuid.bits,
            ingestion_id: self.ingestion_id@,
            name: self.name@,
            url: self.url@,
            node_type: self.node_type@,
            tags: self.tags.deep_view(),
            relations: self.relations.deep_view(),
        }
    }
}

impl DeepView for Node {
    type V = NodeView;

    open spec fn deep_view(&self) -> NodeView {
        self@
    }
}

/// Every row but the first names its direction, its relation and its far
/// end, as every row read back from the table does.
pub open spec fn edges_are_keyed(rows: Seq<DbNodeView>) -> bool {
    forall|i: int|
        1 <= i < rows.len() ==> {
            &&& (#[trigger] rows[i]).direction is Some
            &&& rows[i].relation is Some
            &&& rows[i].relates_to is Some
        }
}

/// Tells whether every row but the first names its direction, its relation
/// and its far end.
pub fn edges_are_keyed_in(rows: &Vec<DbNode>) -> (keyed: bool)
    ensures
        keyed == edges_are_keyed(rows.deep_view()),
{
    let mut i: usize = 1;
    while i < rows.len()
        invariant
            1 <= i,
            forall|j: int|
                1 <= j < i && j < rows.len() ==> {
                    &&& (#[trigger] rows.deep_view()[j]).direction is Some
                    &&& rows.deep_view()[j].relation is Some
                    &&& rows.deep_view()[j].relates_to is Some
                },
        decreases rows.len() - i,
    {
        let row = &rows[i];
        assert(row@ == rows.deep_view()[i as int]);
        if row.direction.is_none() || row.relation.is_none() || row.relates_to.is_none() {
            return false;
        }
        i += 1;
    }
    true
}

/// The edge that a stored edge row describes.
pub open spec fn relation_of_row(row: DbNodeView) -> RelationView {
    RelationView {
        rel_type: row.relation->0,
        outbound: row.direction->0 == Direction::Out.text(),
        target_name: row.name,
        relates_to: row.relates_to->0,
    }
}

/// The node that the rows of one partition describe: the first row is the
/// entity row, each further row one edge, in the order read.
pub open spec fn node_of_rows(rows: Seq<DbNodeView>) -> Option<NodeView> {
    if rows.len() == 0 {
        None
    } else {
        Some(
            NodeView {
                uuid: rows[0].uuid,
                ingestion_id: rows[0].ingestion_id,
                name: rows[0].name,
                url: rows[0].url,
                node_type: rows[0].node_type,
                tags: match rows[0].tags {
                    Some(tags) => tags,
                    None => Seq::empty(),
                },
                relations: Seq::new((rows.len() - 1) as nat, |i: int| relation_of_row(rows[i + 1])),
            },
        )
    }
}

fn clone_tags(tags: &Vec<(String, String)>) -> (copy: Vec<(String, String)>)
    ensures
        copy.deep_view() == tags.deep_view(),
{
    let mut copy: Vec<(String, String)> = Vec::new();
    let mut i: usize = 0;
    while i < tags.len()
        invariant
            i <= tags.len(),
            copy.len() == i,
            forall|j: int| 0 <= j < i ==> (#[trigger] copy@[j]).deep_view() == tags@[j].deep_view(),
        decreases tags.len() - i,
    {
        let t = &tags[i];
        copy.push((t.0.clone(), t.1.clone()));
        i += 1;
    }
    assert(copy.deep_view() =~= tags.deep_view());
    copy
}

impl Node {
    /// A node without edges.
    pub fn new(
        id: NodeId,
        ingestion_id: String,
        url: String,
        name: String,
        node_type: String,
        attrs: Vec<(String, String)>,
    ) -> (node: Self)
        ensures
            node@ == (NodeView {
                uuid: id.bits,
                ingestion_id: ingestion_id@,
                name: name@,
                url: url@,
                node_type: node_type@,
                tags: attrs.deep_view(),
                relations: Seq::empty(),
            }),
    {
        let node = Node {
            ingestion_id,
            uuid: id,
            url,
            name,
            node_type,
            tags: attrs,
            relations: Vec::new(),
        };
        assert(node.relations.deep_view() =~= Seq::empty());
        node
    }

    /// Rebuilds a node from the rows of its partition. There is no node
    /// where there is no row.
    pub fn from(db_entries: Vec<DbNode>) -> (node: Option<Node>)
        requires
            edges_are_keyed(db_entries.deep_view()),
        ensures
            node.deep_view() == node_of_rows(db_entries.deep_view()),
    {
        if db_entries.len() == 0 {
            return None;
        }
        let ghost rows = db_entries.deep_view();
        let n = &db_entries[0];
        assert(n@ == rows[0]);
        let attrs = match &n.tags {
            Some(tags) => clone_tags(tags),
            None => Vec::new(),
        };
        assert(attrs.deep_view() =~= node_of_rows(rows)->0.tags);
        let mut node = Node::new(
            n.uuid,
            n.ingestion_id.clone(),
            n.url.clone(),
            n.name.clone(),
            n.node_type.clone(),
            attrs,
        );
        let out = Direction::Out.to_string();
        let mut relations: Vec<Relation> = Vec::new();
        let mut i: usize = 1;
        while i < db_entries.len()
            invariant
                1 <= i <= db_entries.len(),
                rows == db_entries.deep_view(),
                edges_are_keyed(rows),
                out@ == Direction::Out.text(),
                relations.len() == i - 1,
                forall|j: int| 0 <= j < i - 1 ==> (#[trigger] relations@[j])@ == relation_of_row(rows[j + 1]),
            decreases db_entries.len() - i,
        {
            let e = &db_entries[i];
            assert(e@ == rows[i as int]);
            let direction = e.direction.as_ref().unwrap().clone();
            let relation = e.relation.as_ref().unwrap().clone();
            let relates_to = e.relates_to.as_ref().unwrap().clone();
            let outbound = direction == out;
            relations.push(Relation::from(e.name.clone(), relation, relates_to, outbound));
            i += 1;
        }
        node.relations = relations;
        assert(node.relations.deep_view() =~= node_of_rows(rows)->0.relations);
        assert(node@ == node_of_rows(rows)->0);
        Some(node)
    }
}

/// A node of a traversal with the subtrees reached from it.
#[derive(Debug, PartialEq, Eq)]
pub struct TraversalNode {
    pub uuid: NodeId,
    pub depth: usize,
    pub name: String,
    pub node_type: String,
    pub relations: Vec<TraversalNode>,
    pub relation_ids: Vec<String>,
}

/// What a [`TraversalNode`] holds.
pub struct TraversalNodeView {
    pub uuid: u128,
    pub depth: nat,
    pub name: Seq<char>,
    pub node_type: Seq<char>,
    pub relations: Seq<TraversalNodeView>,
    pub relation_ids: Seq<Seq<char>>,
}

/// What a traversal node and the subtrees attached to it hold.
pub open spec fn traversal_node_view(node: TraversalNode) -> TraversalNodeView
    decreases node,
{
    TraversalNodeView {
        uuid: node.uuid.bits,
        depth: node.depth as nat,
        name: node.name@,
        node_type: node.node_type@,
        relations: Seq::new(
            node.relations.len() as nat,
            |i: int|
                if 0 <= i < node.relations.len() {
                    traversal_node_view(node.relations[i])
                } else {
                    arbitrary()
                },
        ),
        relation_ids: node.relation_ids.deep_view(),
    }
}

impl View for TraversalNode {
    type V = TraversalNodeView;

    open spec fn view(&self) -> TraversalNodeView {
        traversal_node_view(*self)
    }
}

impl Clone for TraversalNode {
    fn clone(&self) -> (copy: Self)
        ensures
            copy@ == self@,
        decreases self,
    {
        let mut relations: Vec<TraversalNode> = Vec::new();
        let mut i: usize = 0;
        while i < self.relations.len()
            invariant
                i <= self.relations.len(),
                relations.len() == i,
                forall|j: int| 0 <= j < i ==> (#[trigger] relations@[j])@ == self.relations@[j]@,
            decreases self.relations.len() - i,
        {
            relations.push(self.relations[i].clone());
            i += 1;
        }
        let mut relation_ids: Vec<String> = Vec::new();
        let mut k: usize = 0;
        while k < self.relation_ids.len()
            invariant
                k <= self.relation_ids.len(),
                relation_ids.len() == k,
                forall|j: int| 0 <= j < k ==> (#[trigger] relation_ids@[j])@ == self.relation_ids@[j]@,
            decreases self.relation_ids.len() - k,
        {
            relation_ids.push(self.relation_ids[k].clone());
            k += 1;
        }
        let copy = TraversalNode {
            uuid: self.uuid,
            depth: self.depth,
            name: self.name.clone(),
            node_type: self.node_type.clone(),
            relations,
            relation_ids,
        };
        assert(copy@.relations =~= self@.relations);
        assert(copy@.relation_ids =~= self@.relation_ids);
        copy
    }
}

impl DeepView for TraversalNode {
    type V = TraversalNodeView;

    open spec fn deep_view(&self) -> TraversalNodeView {
        self@
    }
}

/// Every row but the first names its far end.
pub open spec fn far_ends_are_named(rows: Seq<DbRelationView>) -> bool {
    forall|i: int| 1 <= i < rows.len() ==> (#[trigger] rows[i]).relates_to is Some
}

/// Tells whether every row but the first names its far end.
pub fn far_ends_are_named_in(rows: &Vec<DbRelation>) -> (named: bool)
    ensures
        named == far_ends_are_named(rows.deep_view()),
{
    let mut i: usize = 1;
    while i < rows.len()
        invariant
            1 <= i,
            forall|j: int|
                1 <= j < i && j < rows.len() ==> (#[trigger] rows.deep_view()[j]).relates_to
                    is Some,
        decreases rows.len() - i,
    {
        let row = &rows[i];
        assert(row@ == rows.deep_view()[i as int]);
        if row.relates_to.is_none() {
            return false;
        }
        i += 1;
    }
    true
}

/// The traversal node, at `depth`, that the rows of one partition describe:
/// the first row is the entity row, each further row gives the identity of
/// one node to expand. Nothing is expanded yet.
pub open spec fn traversal_node_of_rows(rows: Seq<DbRelationView>, depth: nat) -> Option<
    TraversalNodeView,
> {
    if rows.len() == 0 {
        None
    } else {
        Some(
            TraversalNodeView {
                uuid: rows[0].uuid,
                depth,
                name: rows[0].name,
                node_type: rows[0].node_type,
                relations: Seq::empty(),
                relation_ids: Seq::new((rows.len() - 1) as nat, |i: int| rows[i + 1].relates_to->0),
            },
        )
    }
}

impl TraversalNode {
    /// The view of a node, field by field.
    pub proof fn lemma_view(self)
        ensures
            self@.uuid == self.uuid.bits,
            self@.depth == self.depth,
            self@.name == self.name@,
            self@.node_type == self.node_type@,
            self@.relation_ids == self.relation_ids.deep_view(),
            self@.relations.len() == self.relations.len(),
            forall|i: int|
                0 <= i < self.relations.len() ==> self@.relations[i] == self.relations[i]@,
    {
    }

    fn new(uuid: NodeId, depth: usize, name: String, node_type: String) -> (node: Self)
        ensures
            node@ == (TraversalNodeView {
                uuid: uuid.bits,
                depth: depth as nat,
                name: name@,
                node_type: node_type@,
                relations: Seq::empty(),
                relation_ids: Seq::empty(),
            }),
    {
        let node = TraversalNode {
            uuid,
            depth,
            name,
            node_type,
            relations: Vec::new(),
            relation_ids: Vec::new(),
        };
        assert(node@.relations =~= Seq::empty());
        assert(node@.relation_ids =~= Seq::empty());
        node
    }

    /// Builds the node of a traversal from the rows read for it. There is no
    /// node where there is no row.
    pub fn from(db_entries: Vec<DbRelation>, depth: usize) -> (node: Option<TraversalNode>)
        requires
            far_ends_are_named(db_entries.deep_view()),
        ensures
            node.deep_view() == traversal_node_of_rows(db_entries.deep_view(), depth as nat),
    {
        if db_entries.len() == 0 {
            return None;
        }
        let ghost rows = db_entries.deep_view();
        let n = &db_entries[0];
        assert(n@ == rows[0]);
        let mut node = TraversalNode::new(n.uuid, depth, n.name.clone(), n.node_type.clone());
        let mut ids: Vec<String> = Vec::new();
        let mut i: usize = 1;
        while i < db_entries.len()
            invariant
                1 <= i <= db_entries.len(),
                rows == db_entries.deep_view(),
                far_ends_are_named(rows),
                ids.len() == i - 1,
                forall|j: int| 0 <= j < i - 1 ==> (#[trigger] ids@[j])@ == rows[j + 1].relates_to->0,
            decreases db_entries.len() - i,
        {
            let r = &db_entries[i];
            assert(r@ == rows[i as int]);
            ids.push(r.relates_to.as_ref().unwrap().clone());
            i += 1;
        }
        node.relation_ids = ids;
        assert(node@.relation_ids =~= traversal_node_of_rows(rows, depth as nat)->0.relation_ids);
        assert(node@.relations =~= Seq::empty());
        assert(node@ == traversal_node_of_rows(rows, depth as nat)->0);
        Some(node)
    }
}

} // verus!
