//! What holds of the rows of every document: which rows a node gives rise to,
//! where they stand, and how the two rows of an edge match.

use vstd::prelude::*;

use crate::data::model::{hyphenated, id_of, last_segment, relation_to, segment_start, RelationView};
use crate::data::source_model::{NodesView, RelationView as SourceRelationView};
use crate::db::model::{edge_row, entity_row, DbNodeView};
use crate::edge::{Direction, ImplicitRelation};
use crate::flatten::{
    child_rows, flatten_list, flatten_node, own_rows, parent_rows, relation_row, relation_rows,
    rows_of, tags_of,
};
use crate::relations::{declared_relations, join_path, relations_at, with_relation};

verus! {

/// A path under which nodes stand: empty at the top, ending in `/` below.
pub open spec fn is_prefix_path(path: Seq<char>) -> bool {
    path.len() == 0 || path.last() == '/'
}

/// The last segment of a path under which a name without `/` was put is that
/// name.
pub proof fn lemma_last_segment_of_placed_name(path: Seq<char>, name: Seq<char>)
    requires
        is_prefix_path(path),
        !name.contains('/'),
    ensures
        segment_start(path + name) == path.len(),
        last_segment(path + name) == name,
    decreases name.len(),
{
    if name.len() == 0 {
        assert(path + name =~= path);
        if path.len() > 0 {
            assert(segment_start(path) == path.len());
        }
    } else {
        let shorter = name.drop_last();
        assert((path + name).drop_last() =~= path + shorter);
        assert(name[name.len() - 1] == name.last());
        assert(name.contains(name.last()));
        assert forall|c: char| shorter.contains(c) implies name.contains(c) by {
            let i = choose|i: int| 0 <= i < shorter.len() && shorter[i] == c;
            assert(name[i] == c);
        }
        lemma_last_segment_of_placed_name(path, shorter);
        assert((path + name).last() == name.last());
    }
    assert((path + name).subrange(path.len() as int, (path + name).len() as int) =~= name);
}

/// Each entity row among `rows` whose name holds no `/` is named by the last
/// segment of its path.
pub open spec fn entities_are_named_by_path(rows: Seq<DbNodeView>) -> bool {
    forall|i: int|
        0 <= i < rows.len() && (#[trigger] rows[i]).is_entity() && !rows[i].name.contains('/')
            ==> rows[i].name == last_segment(rows[i].url)
}

proof fn lemma_named_by_path_list(
    ingestion_id: Seq<char>,
    nodes: Seq<NodesView>,
    path: Seq<char>,
    parent: Option<(u128, Seq<char>)>,
    relations: Map<Seq<char>, Seq<RelationView>>,
)
    requires
        is_prefix_path(path),
    ensures
        entities_are_named_by_path(flatten_list(ingestion_id, nodes, path, parent, relations)),
    decreases nodes, 0nat,
{
    if nodes.len() > 0 {
        lemma_named_by_path_list(ingestion_id, nodes.drop_last(), path, parent, relations);
        lemma_named_by_path_node(ingestion_id, nodes.last(), path, parent, relations);
    }
}

proof fn lemma_named_by_path_node(
    ingestion_id: Seq<char>,
    node: NodesView,
    path: Seq<char>,
    parent: Option<(u128, Seq<char>)>,
    relations: Map<Seq<char>, Seq<RelationView>>,
)
    requires
        is_prefix_path(path),
    ensures
        entities_are_named_by_path(flatten_node(ingestion_id, node, path, parent, relations)),
    decreases node, 1nat,
{
    let url = path + node.name;
    let own = own_rows(ingestion_id, node, path, parent, relations);
    assert forall|i: int|
        0 <= i < own.len() && (#[trigger] own[i]).is_entity() && !own[i].name.contains(
            '/',
        ) implies own[i].name == last_segment(own[i].url) by {
        assert(i == 0);
        lemma_last_segment_of_placed_name(path, node.name);
    }
    lemma_named_by_path_list(
        ingestion_id,
        node.children,
        url + seq!['/'],
        Some((id_of(ingestion_id, url), node.name)),
        relations,
    );
}

/// In the rows of a document, the name of each entity row is the last
/// `/`-separated segment of its path, for every node whose name holds no
/// `/`.
pub proof fn lemma_entity_name_is_last_segment(
    ingestion_id: Seq<char>,
    nodes: Seq<NodesView>,
    relations: Map<Seq<char>, Seq<RelationView>>,
)
    ensures
        entities_are_named_by_path(rows_of(ingestion_id, nodes, relations)),
{
    lemma_named_by_path_list(ingestion_id, nodes, Seq::empty(), None, relations);
}

/// A node of a document in its place: under `path` and below `parent`.
pub struct Placed {
    pub node: NodesView,
    pub path: Seq<char>,
    pub parent: Option<(u128, Seq<char>)>,
}

impl Placed {
    /// The path of the node itself.
    pub open spec fn url(self) -> Seq<char> {
        self.path + self.node.name
    }

    /// The identity of the node within `ingestion_id`.
    pub open spec fn id(self, ingestion_id: Seq<char>) -> u128 {
        id_of(ingestion_id, self.url())
    }

    /// The entity row of the node.
    pub open spec fn entity(self, ingestion_id: Seq<char>) -> DbNodeView {
        entity_row(
            ingestion_id,
            self.url(),
            self.node.name,
            self.node.type_field,
            tags_of(self.node),
        )
    }

    /// The rows of the node itself.
    pub open spec fn rows(
        self,
        ingestion_id: Seq<char>,
        relations: Map<Seq<char>, Seq<RelationView>>,
    ) -> Seq<DbNodeView> {
        own_rows(ingestion_id, self.node, self.path, self.parent, relations)
    }

    /// The `k`-th child of the node in its place.
    pub open spec fn child(self, ingestion_id: Seq<char>, k: int) -> Placed {
        Placed {
            node: self.node.children[k],
            path: self.url() + seq!['/'],
            parent: Some((self.id(ingestion_id), self.node.name)),
        }
    }
}

/// A node and the nodes below it, each in its place, depth first.
pub open spec fn placed_node(
    ingestion_id: Seq<char>,
    node: NodesView,
    path: Seq<char>,
    parent: Option<(u128, Seq<char>)>,
) -> Seq<Placed>
    decreases node, 1nat,
{
    let here = Placed { node, path, parent };
    seq![here] + placed_list(
        ingestion_id,
        node.children,
        here.url() + seq!['/'],
        Some((here.id(ingestion_id), node.name)),
    )
}

/// The siblings `nodes` and the nodes below them, each in its place, depth
/// first and left to right.
pub open spec fn placed_list(
    ingestion_id: Seq<char>,
    nodes: Seq<NodesView>,
    path: Seq<char>,
    parent: Option<(u128, Seq<char>)>,
) -> Seq<Placed>
    decreases nodes, 0nat,
{
    if nodes.len() == 0 {
        Seq::empty()
    } else {
        placed_list(ingestion_id, nodes.drop_last(), path, parent) + placed_node(
            ingestion_id,
            nodes.last(),
            path,
            parent,
        )
    }
}

/// All nodes of the document whose top-level nodes are `nodes`.
pub open spec fn nodes_of(ingestion_id: Seq<char>, nodes: Seq<NodesView>) -> Seq<Placed> {
    placed_list(ingestion_id, nodes, Seq::empty(), None)
}

/// The rows of the given nodes, node after node.
pub open spec fn rows_by_node(
    ingestion_id: Seq<char>,
    placed: Seq<Placed>,
    relations: Map<Seq<char>, Seq<RelationView>>,
) -> Seq<DbNodeView>
    decreases placed.len(),
{
    if placed.len() == 0 {
        Seq::empty()
    } else {
        rows_by_node(ingestion_id, placed.drop_last(), relations) + placed.last().rows(
            ingestion_id,
            relations,
        )
    }
}

proof fn lemma_rows_by_node_concat(
    ingestion_id: Seq<char>,
    a: Seq<Placed>,
    b: Seq<Placed>,
    relations: Map<Seq<char>, Seq<RelationView>>,
)
    ensures
        rows_by_node(ingestion_id, a + b, relations) == rows_by_node(ingestion_id, a, relations)
            + rows_by_node(ingestion_id, b, relations),
    decreases b.len(),
{
    if b.len() == 0 {
        assert(a + b =~= a);
        assert(rows_by_node(ingestion_id, a, relations) + Seq::<DbNodeView>::empty()
            =~= rows_by_node(ingestion_id, a, relations));
    } else {
        assert((a + b).drop_last() =~= a + b.drop_last());
        lemma_rows_by_node_concat(ingestion_id, a, b.drop_last(), relations);
        assert(rows_by_node(ingestion_id, a + b, relations) =~= rows_by_node(
            ingestion_id,
            a,
            relations,
        ) + rows_by_node(ingestion_id, b, relations));
    }
}

proof fn lemma_rows_follow_list(
    ingestion_id: Seq<char>,
    nodes: Seq<NodesView>,
    path: Seq<char>,
    parent: Option<(u128, Seq<char>)>,
    relations: Map<Seq<char>, Seq<RelationView>>,
)
    ensures
        flatten_list(ingestion_id, nodes, path, parent, relations) == rows_by_node(
            ingestion_id,
            placed_list(ingestion_id, nodes, path, parent),
            relations,
        ),
    decreases nodes, 0nat,
{
    if nodes.len() > 0 {
        lemma_rows_follow_list(ingestion_id, nodes.drop_last(), path, parent, relations);
        lemma_rows_follow_node(ingestion_id, nodes.last(), path, parent, relations);
        lemma_rows_by_node_concat(
            ingestion_id,
            placed_list(ingestion_id, nodes.drop_last(), path, parent),
            placed_node(ingestion_id, nodes.last(), path, parent),
            relations,
        );
    }
}

proof fn lemma_rows_follow_node(
    ingestion_id: Seq<char>,
    node: NodesView,
    path: Seq<char>,
    parent: Option<(u128, Seq<char>)>,
    relations: Map<Seq<char>, Seq<RelationView>>,
)
    ensures
        flatten_node(ingestion_id, node, path, parent, relations) == rows_by_node(
            ingestion_id,
            placed_node(ingestion_id, node, path, parent),
            relations,
        ),
    decreases node, 1nat,
{
    let here = Placed { node, path, parent };
    let below = placed_list(
        ingestion_id,
        node.children,
        here.url() + seq!['/'],
        Some((here.id(ingestion_id), node.name)),
    );
    lemma_rows_follow_list(
        ingestion_id,
        node.children,
        here.url() + seq!['/'],
        Some((here.id(ingestion_id), node.name)),
        relations,
    );
    lemma_rows_by_node_concat(ingestion_id, seq![here], below, relations);
    assert(seq![here].drop_last() =~= Seq::<Placed>::empty());
    assert(seq![here].last() == here);
    assert(rows_by_node(ingestion_id, Seq::<Placed>::empty(), relations) =~= Seq::empty());
    assert(rows_by_node(ingestion_id, seq![here], relations) =~= here.rows(
        ingestion_id,
        relations,
    ));
}

/// The rows of a document are the rows of its nodes, node after node, depth
/// first and left to right.
pub proof fn lemma_rows_follow_the_nodes(
    ingestion_id: Seq<char>,
    nodes: Seq<NodesView>,
    relations: Map<Seq<char>, Seq<RelationView>>,
)
    ensures
        rows_of(ingestion_id, nodes, relations) == rows_by_node(
            ingestion_id,
            nodes_of(ingestion_id, nodes),
            relations,
        ),
{
    lemma_rows_follow_list(ingestion_id, nodes, Seq::empty(), None, relations);
}

proof fn lemma_concat_contains<A>(a: Seq<A>, b: Seq<A>, x: A)
    requires
        a.contains(x) || b.contains(x),
    ensures
        (a + b).contains(x),
{
    if a.contains(x) {
        let i = choose|i: int| 0 <= i < a.len() && a[i] == x;
        assert((a + b)[i] == x);
    } else {
        let i = choose|i: int| 0 <= i < b.len() && b[i] == x;
        assert((a + b)[a.len() + i] == x);
    }
}

proof fn lemma_rows_of_node_are_among(
    ingestion_id: Seq<char>,
    placed: Seq<Placed>,
    relations: Map<Seq<char>, Seq<RelationView>>,
    at: int,
    row: DbNodeView,
)
    requires
        0 <= at < placed.len(),
        placed[at].rows(ingestion_id, relations).contains(row),
    ensures
        rows_by_node(ingestion_id, placed, relations).contains(row),
    decreases placed.len(),
{
    let front = rows_by_node(ingestion_id, placed.drop_last(), relations);
    let last = placed.last().rows(ingestion_id, relations);
    if at < placed.len() - 1 {
        assert(placed.drop_last()[at] == placed[at]);
        lemma_rows_of_node_are_among(ingestion_id, placed.drop_last(), relations, at, row);
    }
    lemma_concat_contains(front, last, row);
}

proof fn lemma_roots_are_placed(
    ingestion_id: Seq<char>,
    nodes: Seq<NodesView>,
    path: Seq<char>,
    parent: Option<(u128, Seq<char>)>,
    k: int,
)
    requires
        0 <= k < nodes.len(),
    ensures
        placed_list(ingestion_id, nodes, path, parent).contains(
            Placed { node: nodes[k], path, parent },
        ),
    decreases nodes.len(),
{
    let front = placed_list(ingestion_id, nodes.drop_last(), path, parent);
    let last = placed_node(ingestion_id, nodes.last(), path, parent);
    let wanted = Placed { node: nodes[k], path, parent };
    if k < nodes.len() - 1 {
        assert(nodes.drop_last()[k] == nodes[k]);
        lemma_roots_are_placed(ingestion_id, nodes.drop_last(), path, parent, k);
    } else {
        assert(last[0] == wanted);
    }
    lemma_concat_contains(front, last, wanted);
}

proof fn lemma_children_are_placed_list(
    ingestion_id: Seq<char>,
    nodes: Seq<NodesView>,
    path: Seq<char>,
    parent: Option<(u128, Seq<char>)>,
    at: int,
    k: int,
)
    requires
        0 <= at < placed_list(ingestion_id, nodes, path, parent).len(),
        0 <= k < placed_list(ingestion_id, nodes, path, parent)[at].node.children.len(),
    ensures
        placed_list(ingestion_id, nodes, path, parent).contains(
            placed_list(ingestion_id, nodes, path, parent)[at].child(ingestion_id, k),
        ),
    decreases nodes, 0nat,
{
    let front = placed_list(ingestion_id, nodes.drop_last(), path, parent);
    let last = placed_node(ingestion_id, nodes.last(), path, parent);
    let wanted = (front + last)[at].child(ingestion_id, k);
    if at < front.len() {
        lemma_children_are_placed_list(ingestion_id, nodes.drop_last(), path, parent, at, k);
    } else {
        lemma_children_are_placed_node(
            ingestion_id,
            nodes.last(),
            path,
            parent,
            at - front.len(),
            k,
        );
    }
    lemma_concat_contains(front, last, wanted);
}

proof fn lemma_children_are_placed_node(
    ingestion_id: Seq<char>,
    node: NodesView,
    path: Seq<char>,
    parent: Option<(u128, Seq<char>)>,
    at: int,
    k: int,
)
    requires
        0 <= at < placed_node(ingestion_id, node, path, parent).len(),
        0 <= k < placed_node(ingestion_id, node, path, parent)[at].node.children.len(),
    ensures
        placed_node(ingestion_id, node, path, parent).contains(
            placed_node(ingestion_id, node, path, parent)[at].child(ingestion_id, k),
        ),
    decreases node, 1nat,
{
    let here = Placed { node, path, parent };
    let under = here.url() + seq!['/'];
    let above = Some((here.id(ingestion_id), node.name));
    let below = placed_list(ingestion_id, node.children, under, above);
    let wanted = (seq![here] + below)[at].child(ingestion_id, k);
    if at == 0 {
        lemma_roots_are_placed(ingestion_id, node.children, under, above, k);
    } else {
        lemma_children_are_placed_list(ingestion_id, node.children, under, above, at - 1, k);
    }
    lemma_concat_contains(seq![here], below, wanted);
}

/// Each parent and child are joined by two rows: in the partition of the
/// parent an outbound `ISCHILD` row that points at the child and carries the
/// child's name, and in the partition of the child an inbound `ISPARENT` row
/// that points at the parent and carries the parent's name.
pub proof fn lemma_hierarchy_edges_are_matched(
    ingestion_id: Seq<char>,
    nodes: Seq<NodesView>,
    relations: Map<Seq<char>, Seq<RelationView>>,
    at: int,
    k: int,
)
    requires
        0 <= at < nodes_of(ingestion_id, nodes).len(),
        0 <= k < nodes_of(ingestion_id, nodes)[at].node.children.len(),
    ensures
        ({
            let parent = nodes_of(ingestion_id, nodes)[at];
            let child = parent.child(ingestion_id, k);
            let rows = rows_of(ingestion_id, nodes, relations);
            &&& nodes_of(ingestion_id, nodes).contains(child)
            &&& rows.contains(
                edge_row(
                    parent.id(ingestion_id),
                    Direction::Out.text(),
                    ImplicitRelation::IsChild.text(),
                    hyphenated(child.id(ingestion_id)),
                    child.node.name,
                ),
            )
            &&& rows.contains(
                edge_row(
                    child.id(ingestion_id),
                    Direction::In.text(),
                    ImplicitRelation::IsParent.text(),
                    hyphenated(parent.id(ingestion_id)),
                    parent.node.name,
                ),
            )
        }),
{
    let placed = nodes_of(ingestion_id, nodes);
    let parent = placed[at];
    let child = parent.child(ingestion_id, k);
    lemma_rows_follow_the_nodes(ingestion_id, nodes, relations);
    lemma_children_are_placed_list(ingestion_id, nodes, Seq::empty(), None, at, k);
    let child_at = choose|i: int| 0 <= i < placed.len() && placed[i] == child;

    let down = edge_row(
        parent.id(ingestion_id),
        Direction::Out.text(),
        ImplicitRelation::IsChild.text(),
        hyphenated(child.id(ingestion_id)),
        child.node.name,
    );
    let to_children = child_rows(
        ingestion_id,
        parent.id(ingestion_id),
        parent.url(),
        parent.node.children,
    );
    assert(to_children[k] == down);
    let parent_rows_all = parent.rows(ingestion_id, relations);
    assert(parent_rows_all[parent_rows_all.len() - to_children.len() + k] == down);
    lemma_rows_of_node_are_among(ingestion_id, placed, relations, at, down);

    let up = edge_row(
        child.id(ingestion_id),
        Direction::In.text(),
        ImplicitRelation::IsParent.text(),
        hyphenated(parent.id(ingestion_id)),
        parent.node.name,
    );
    assert(parent_rows(child.id(ingestion_id), child.parent)[0] == up);
    assert(child.rows(ingestion_id, relations)[1] == up);
    lemma_rows_of_node_are_among(ingestion_id, placed, relations, child_at, up);
}

/// The test that picks the entity rows.
pub open spec fn is_entity_row() -> spec_fn(DbNodeView) -> bool {
    |row: DbNodeView| row.is_entity()
}

/// The test that picks the rows of the partition of `id`.
pub open spec fn in_partition(id: u128) -> spec_fn(DbNodeView) -> bool {
    |row: DbNodeView| row.uuid == id
}

proof fn lemma_filter_none<A>(s: Seq<A>, pred: spec_fn(A) -> bool)
    requires
        forall|i: int| 0 <= i < s.len() ==> !pred(#[trigger] s[i]),
    ensures
        s.filter(pred) == Seq::<A>::empty(),
    decreases s.len(),
{
    reveal(Seq::filter);
    if s.len() > 0 {
        lemma_filter_none(s.drop_last(), pred);
    }
}

proof fn lemma_filter_all<A>(s: Seq<A>, pred: spec_fn(A) -> bool)
    requires
        forall|i: int| 0 <= i < s.len() ==> pred(#[trigger] s[i]),
    ensures
        s.filter(pred) == s,
    decreases s.len(),
{
    reveal(Seq::filter);
    if s.len() > 0 {
        lemma_filter_all(s.drop_last(), pred);
        assert(s.drop_last().push(s.last()) =~= s);
    }
}

proof fn lemma_entity_of_node(
    ingestion_id: Seq<char>,
    here: Placed,
    relations: Map<Seq<char>, Seq<RelationView>>,
)
    ensures
        here.rows(ingestion_id, relations).filter(is_entity_row()) == seq![
            here.entity(ingestion_id),
        ],
{
    let id = here.id(ingestion_id);
    let first = seq![here.entity(ingestion_id)];
    let edges = parent_rows(id, here.parent) + relation_rows(
        id,
        relations_at(relations, here.url()),
    ) + child_rows(ingestion_id, id, here.url(), here.node.children);
    assert(here.rows(ingestion_id, relations) =~= first + edges);
    Seq::filter_distributes_over_add(first, edges, is_entity_row());
    lemma_filter_all(first, is_entity_row());
    lemma_filter_none(edges, is_entity_row());
    assert(first + Seq::<DbNodeView>::empty() =~= first);
}

proof fn lemma_entities_by_node(
    ingestion_id: Seq<char>,
    placed: Seq<Placed>,
    relations: Map<Seq<char>, Seq<RelationView>>,
)
    ensures
        rows_by_node(ingestion_id, placed, relations).filter(is_entity_row())
            == placed.map_values(|p: Placed| p.entity(ingestion_id)),
    decreases placed.len(),
{
    let entities = placed.map_values(|p: Placed| p.entity(ingestion_id));
    if placed.len() == 0 {
        lemma_filter_none(rows_by_node(ingestion_id, placed, relations), is_entity_row());
        assert(entities =~= Seq::empty());
    } else {
        let front = placed.drop_last();
        lemma_entities_by_node(ingestion_id, front, relations);
        lemma_entity_of_node(ingestion_id, placed.last(), relations);
        Seq::filter_distributes_over_add(
            rows_by_node(ingestion_id, front, relations),
            placed.last().rows(ingestion_id, relations),
            is_entity_row(),
        );
        assert(entities =~= front.map_values(|p: Placed| p.entity(ingestion_id)) + seq![
            placed.last().entity(ingestion_id),
        ]);
    }
}

/// Each node of a document has exactly one entity row: the entity rows, in
/// the order emitted, are those of the nodes, depth first and left to right.
pub proof fn lemma_one_entity_row_per_node(
    ingestion_id: Seq<char>,
    nodes: Seq<NodesView>,
    relations: Map<Seq<char>, Seq<RelationView>>,
)
    ensures
        rows_of(ingestion_id, nodes, relations).filter(is_entity_row()) == nodes_of(
            ingestion_id,
            nodes,
        ).map_values(|p: Placed| p.entity(ingestion_id)),
{
    lemma_rows_follow_the_nodes(ingestion_id, nodes, relations);
    lemma_entities_by_node(ingestion_id, nodes_of(ingestion_id, nodes), relations);
}

proof fn lemma_rows_stand_in_own_partition(
    ingestion_id: Seq<char>,
    here: Placed,
    relations: Map<Seq<char>, Seq<RelationView>>,
)
    ensures
        forall|j: int|
            0 <= j < here.rows(ingestion_id, relations).len() ==> (#[trigger] here.rows(
                ingestion_id,
                relations,
            )[j]).uuid == here.id(ingestion_id),
{
}

proof fn lemma_partition_without_node(
    ingestion_id: Seq<char>,
    placed: Seq<Placed>,
    relations: Map<Seq<char>, Seq<RelationView>>,
    id: u128,
)
    requires
        forall|b: int| 0 <= b < placed.len() ==> (#[trigger] placed[b]).id(ingestion_id) != id,
    ensures
        rows_by_node(ingestion_id, placed, relations).filter(in_partition(id)) == Seq::<
            DbNodeView,
        >::empty(),
    decreases placed.len(),
{
    if placed.len() == 0 {
        lemma_filter_none(rows_by_node(ingestion_id, placed, relations), in_partition(id));
    } else {
        let front = placed.drop_last();
        assert forall|b: int| 0 <= b < front.len() implies (#[trigger] front[b]).id(ingestion_id)
            != id by {
            assert(front[b] == placed[b]);
        }
        lemma_partition_without_node(ingestion_id, front, relations, id);
        lemma_rows_stand_in_own_partition(ingestion_id, placed.last(), relations);
        assert(placed[placed.len() - 1].id(ingestion_id) != id);
        lemma_filter_none(placed.last().rows(ingestion_id, relations), in_partition(id));
        Seq::filter_distributes_over_add(
            rows_by_node(ingestion_id, front, relations),
            placed.last().rows(ingestion_id, relations),
            in_partition(id),
        );
        assert(Seq::<DbNodeView>::empty() + Seq::<DbNodeView>::empty() =~= Seq::<
            DbNodeView,
        >::empty());
    }
}

proof fn lemma_partition_by_node(
    ingestion_id: Seq<char>,
    placed: Seq<Placed>,
    relations: Map<Seq<char>, Seq<RelationView>>,
    at: int,
)
    requires
        0 <= at < placed.len(),
        forall|b: int|
            0 <= b < placed.len() && b != at ==> (#[trigger] placed[b]).id(ingestion_id)
                != placed[at].id(ingestion_id),
    ensures
        rows_by_node(ingestion_id, placed, relations).filter(
            in_partition(placed[at].id(ingestion_id)),
        ) == placed[at].rows(ingestion_id, relations),
    decreases placed.len(),
{
    let id = placed[at].id(ingestion_id);
    let front = placed.drop_last();
    let last_rows = placed.last().rows(ingestion_id, relations);
    let own = placed[at].rows(ingestion_id, relations);
    lemma_rows_stand_in_own_partition(ingestion_id, placed.last(), relations);
    Seq::filter_distributes_over_add(
        rows_by_node(ingestion_id, front, relations),
        last_rows,
        in_partition(id),
    );
    assert forall|b: int| 0 <= b < front.len() implies (#[trigger] front[b]) == placed[b] by {}
    if at == placed.len() - 1 {
        lemma_partition_without_node(ingestion_id, front, relations, id);
        lemma_filter_all(last_rows, in_partition(id));
        assert(Seq::<DbNodeView>::empty() + own =~= own);
    } else {
        lemma_partition_by_node(ingestion_id, front, relations, at);
        assert(placed[placed.len() - 1].id(ingestion_id) != id);
        lemma_filter_none(last_rows, in_partition(id));
        assert(own + Seq::<DbNodeView>::empty() =~= own);
    }
}

/// Where no other node of the document has the identity of a node, the rows
/// of the document that stand in the partition of that node are its entity
/// row and the edge rows emitted for it, no more and no fewer, in the order
/// emitted.
pub proof fn lemma_partition_holds_the_rows_of_its_node(
    ingestion_id: Seq<char>,
    nodes: Seq<NodesView>,
    relations: Map<Seq<char>, Seq<RelationView>>,
    at: int,
)
    requires
        0 <= at < nodes_of(ingestion_id, nodes).len(),
        forall|b: int|
            0 <= b < nodes_of(ingestion_id, nodes).len() && b != at ==> (#[trigger] nodes_of(
                ingestion_id,
                nodes,
            )[b]).id(ingestion_id) != nodes_of(ingestion_id, nodes)[at].id(ingestion_id),
    ensures
        rows_of(ingestion_id, nodes, relations).filter(
            in_partition(nodes_of(ingestion_id, nodes)[at].id(ingestion_id)),
        ) == nodes_of(ingestion_id, nodes)[at].rows(ingestion_id, relations),
{
    lemma_rows_follow_the_nodes(ingestion_id, nodes, relations);
    lemma_partition_by_node(ingestion_id, nodes_of(ingestion_id, nodes), relations, at);
}

proof fn lemma_with_relation(
    index: Map<Seq<char>, Seq<RelationView>>,
    url: Seq<char>,
    relation: RelationView,
)
    ensures
        relations_at(with_relation(index, url, relation), url).contains(relation),
        forall|other_url: Seq<char>, other: RelationView|
            relations_at(index, other_url).contains(other) ==> #[trigger] relations_at(
                with_relation(index, url, relation),
                other_url,
            ).contains(other),
{
    let held = relations_at(index, url);
    let after = with_relation(index, url, relation);
    assert(relations_at(after, url)[held.len() as int] == relation);
    assert forall|other_url: Seq<char>, other: RelationView|
        relations_at(index, other_url).contains(other) implies #[trigger] relations_at(
        after,
        other_url,
    ).contains(other) by {
        let i = choose|i: int|
            0 <= i < relations_at(index, other_url).len() && relations_at(index, other_url)[i]
                == other;
        assert(relations_at(after, other_url)[i] == other);
    }
}

proof fn lemma_declared_relations_hold_both_ends(
    ingestion_id: Seq<char>,
    relations: Seq<SourceRelationView>,
    j: int,
)
    requires
        0 <= j < relations.len(),
    ensures
        ({
            let r = relations[j];
            let source = join_path(r.source);
            let target = join_path(r.target);
            let index = declared_relations(ingestion_id, relations);
            &&& relations_at(index, source).contains(
                relation_to(ingestion_id, r.type_field, target, true),
            )
            &&& relations_at(index, target).contains(
                relation_to(ingestion_id, r.type_field, source, false),
            )
        }),
    decreases relations.len(),
{
    let last = relations.last();
    let last_source = join_path(last.source);
    let last_target = join_path(last.target);
    let before = declared_relations(ingestion_id, relations.drop_last());
    let outbound = relation_to(ingestion_id, last.type_field, last_target, true);
    let inbound = relation_to(ingestion_id, last.type_field, last_source, false);
    let half = with_relation(before, last_source, outbound);
    lemma_with_relation(before, last_source, outbound);
    lemma_with_relation(half, last_target, inbound);
    if j < relations.len() - 1 {
        assert(relations.drop_last()[j] == relations[j]);
        lemma_declared_relations_hold_both_ends(ingestion_id, relations.drop_last(), j);
    }
}

/// A declared relation whose two ends are nodes of the document is stored
/// twice: in the partition of its source an outbound row that points at the
/// target, and in the partition of its target an inbound row of the same
/// type that points at the source. Each row carries the last segment of the
/// far end's path as its name.
pub proof fn lemma_declared_edges_are_matched(
    ingestion_id: Seq<char>,
    nodes: Seq<NodesView>,
    relations: Seq<SourceRelationView>,
    j: int,
    source_at: int,
    target_at: int,
)
    requires
        0 <= j < relations.len(),
        0 <= source_at < nodes_of(ingestion_id, nodes).len(),
        0 <= target_at < nodes_of(ingestion_id, nodes).len(),
        nodes_of(ingestion_id, nodes)[source_at].url() == join_path(
            relations[j].source,
        ),
        nodes_of(ingestion_id, nodes)[target_at].url() == join_path(
            relations[j].target,
        ),
    ensures
        ({
            let source = join_path(relations[j].source);
            let target = join_path(relations[j].target);
            let rows = rows_of(ingestion_id, nodes, declared_relations(ingestion_id, relations));
            &&& rows.contains(
                edge_row(
                    id_of(ingestion_id, source),
                    Direction::Out.text(),
                    relations[j].type_field,
                    hyphenated(id_of(ingestion_id, target)),
                    last_segment(target),
                ),
            )
            &&& rows.contains(
                edge_row(
                    id_of(ingestion_id, target),
                    Direction::In.text(),
                    relations[j].type_field,
                    hyphenated(id_of(ingestion_id, source)),
                    last_segment(source),
                ),
            )
        }),
{
    let placed = nodes_of(ingestion_id, nodes);
    let index = declared_relations(ingestion_id, relations);
    let source = join_path(relations[j].source);
    let target = join_path(relations[j].target);
    let outbound = relation_to(ingestion_id, relations[j].type_field, target, true);
    let inbound = relation_to(ingestion_id, relations[j].type_field, source, false);
    lemma_rows_follow_the_nodes(ingestion_id, nodes, index);
    lemma_declared_relations_hold_both_ends(ingestion_id, relations, j);
    lemma_relation_row_is_emitted(ingestion_id, placed[source_at], index, outbound);
    lemma_rows_of_node_are_among(
        ingestion_id,
        placed,
        index,
        source_at,
        relation_row(id_of(ingestion_id, source), outbound),
    );
    lemma_relation_row_is_emitted(ingestion_id, placed[target_at], index, inbound);
    lemma_rows_of_node_are_among(
        ingestion_id,
        placed,
        index,
        target_at,
        relation_row(id_of(ingestion_id, target), inbound),
    );
}

proof fn lemma_relation_row_is_emitted(
    ingestion_id: Seq<char>,
    here: Placed,
    relations: Map<Seq<char>, Seq<RelationView>>,
    relation: RelationView,
)
    requires
        relations_at(relations, here.url()).contains(relation),
    ensures
        here.rows(ingestion_id, relations).contains(
            relation_row(here.id(ingestion_id), relation),
        ),
{
    let id = here.id(ingestion_id);
    let held = relations_at(relations, here.url());
    let i = choose|i: int| 0 <= i < held.len() && held[i] == relation;
    let declared = relation_rows(id, held);
    assert(declared[i] == relation_row(id, relation));
    let head = seq![here.entity(ingestion_id)] + parent_rows(id, here.parent);
    let to_children = child_rows(ingestion_id, id, here.url(), here.node.children);
    assert(here.rows(ingestion_id, relations) =~= head + declared + to_children);
    assert((head + declared + to_children)[head.len() + i] == relation_row(id, relation));
}

} // verus!
