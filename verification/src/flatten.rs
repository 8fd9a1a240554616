//! Flattening: the nested nodes of a document become the rows of the table,
//! depth first and left to right.

use vstd::prelude::*;
use vstd::string::*;

use crate::data::model::{get_id_from_url, hyphenated, id_of, uuid_parse, NodeId, RelationView};
use crate::data::source_model::{File, Nodes, NodesView, Tag};
use crate::db::model::{direction_of, edge_row, entity_row, DbNode, DbNodeView};
use crate::edge::{Direction, ImplicitRelation};
use crate::relations::{
    declared_relations, ends_are_given, far_ends_are_identities, process_relations, relations_at,
    RelationMap,
};

verus! {

/// The tags of a node; none where the document gives none.
pub open spec fn tags_of(node: NodesView) -> Seq<(Seq<char>, Seq<char>)> {
    match node.tags {
        Some(tags) => tags,
        None => Seq::empty(),
    }
}

/// What is known of the node above: its identity and its name.
pub open spec fn parent_of(parent: Option<(NodeId, String)>) -> Option<(u128, Seq<char>)> {
    match parent {
        Some((id, name)) => Some((id.bits, name@)),
        None => None,
    }
}

/// The row, in the partition of `id`, of the edge from a node to its parent.
pub open spec fn parent_rows(id: u128, parent: Option<(u128, Seq<char>)>) -> Seq<DbNodeView> {
    match parent {
        Some((parent_id, parent_name)) => seq![
            edge_row(
                id,
                Direction::In.text(),
                ImplicitRelation::IsParent.text(),
                hyphenated(parent_id),
                parent_name,
            ),
        ],
        None => Seq::empty(),
    }
}

/// The row that stores `relation` in the partition of `id`.
pub open spec fn relation_row(id: u128, relation: RelationView) -> DbNodeView {
    edge_row(
        id,
        direction_of(relation.outbound),
        relation.rel_type,
        relation.relates_to,
        relation.target_name,
    )
}

/// One row, in the partition of `id`, for each of `relations`.
pub open spec fn relation_rows(id: u128, relations: Seq<RelationView>) -> Seq<DbNodeView> {
    Seq::new(relations.len(), |i: int| relation_row(id, relations[i]))
}

/// The row, in the partition of `id`, of the edge from the node at `url` to
/// its child `child`. The identity of the child is derived from its own
/// path.
pub open spec fn child_row(
    ingestion_id: Seq<char>,
    id: u128,
    url: Seq<char>,
    child: NodesView,
) -> DbNodeView {
    edge_row(
        id,
        Direction::Out.text(),
        ImplicitRelation::IsChild.text(),
        hyphenated(id_of(ingestion_id, url + seq!['/'] + child.name)),
        child.name,
    )
}

/// One row, in the partition of `id`, for each of `children`.
pub open spec fn child_rows(
    ingestion_id: Seq<char>,
    id: u128,
    url: Seq<char>,
    children: Seq<NodesView>,
) -> Seq<DbNodeView> {
    Seq::new(children.len(), |i: int| child_row(ingestion_id, id, url, children[i]))
}

/// The rows of one node without those of the nodes below it: its entity row,
/// then the edge to its parent, then its declared relations, then the edges
/// to its children.
pub open spec fn own_rows(
    ingestion_id: Seq<char>,
    node: NodesView,
    path: Seq<char>,
    parent: Option<(u128, Seq<char>)>,
    relations: Map<Seq<char>, Seq<RelationView>>,
) -> Seq<DbNodeView> {
    let url = path + node.name;
    let id = id_of(ingestion_id, url);
    seq![entity_row(ingestion_id, url, node.name, node.type_field, tags_of(node))] + parent_rows(
        id,
        parent,
    ) + relation_rows(id, relations_at(relations, url)) + child_rows(
        ingestion_id,
        id,
        url,
        node.children,
    )
}

/// The rows of a node and of all nodes below it.
pub open spec fn flatten_node(
    ingestion_id: Seq<char>,
    node: NodesView,
    path: Seq<char>,
    parent: Option<(u128, Seq<char>)>,
    relations: Map<Seq<char>, Seq<RelationView>>,
) -> Seq<DbNodeView>
    decreases node, 1nat,
{
    let url = path + node.name;
    own_rows(ingestion_id, node, path, parent, relations) + flatten_list(
        ingestion_id,
        node.children,
        url + seq!['/'],
        Some((id_of(ingestion_id, url), node.name)),
        relations,
    )
}

/// The rows of the siblings `nodes`, which stand under `path` and below
/// `parent`, each followed by the rows of its subtree.
pub open spec fn flatten_list(
    ingestion_id: Seq<char>,
    nodes: Seq<NodesView>,
    path: Seq<char>,
    parent: Option<(u128, Seq<char>)>,
    relations: Map<Seq<char>, Seq<RelationView>>,
) -> Seq<DbNodeView>
    decreases nodes, 0nat,
{
    if nodes.len() == 0 {
        Seq::empty()
    } else {
        flatten_list(ingestion_id, nodes.drop_last(), path, parent, relations) + flatten_node(
            ingestion_id,
            nodes.last(),
            path,
            parent,
            relations,
        )
    }
}

/// From position `from` on, the far end of every row that has one is the
/// text of an identity.
pub open spec fn far_ends_read_back(rows: Seq<DbNodeView>, from: int) -> bool {
    forall|i: int|
        from <= i < rows.len() ==> ((#[trigger] rows[i]).relates_to matches Some(text)
            ==> uuid_parse(text) is Some)
}

fn push_row(db_nodes: &mut Vec<DbNode>, row: DbNode)
    ensures
        final(db_nodes).deep_view() == old(db_nodes).deep_view().push(row@),
{
    db_nodes.push(row);
    assert(db_nodes.deep_view() =~= old(db_nodes).deep_view().push(row@));
}

fn copy_tags(tags: &Option<Vec<Tag>>) -> (copy: Vec<Tag>)
    ensures
        copy.deep_view() == match *tags {
            Some(tags) => tags.deep_view(),
            None => Seq::empty(),
        },
{
    let mut copy: Vec<Tag> = Vec::new();
    match tags {
        Some(tags) => {
            let mut i: usize = 0;
            while i < tags.len()
                invariant
                    i <= tags.len(),
                    copy.len() == i,
                    forall|j: int| 0 <= j < i ==> (#[trigger] copy@[j])@ == tags@[j]@,
                decreases tags.len() - i,
            {
                let t = &tags[i];
                copy.push(Tag { type_field: t.type_field.clone(), value: t.value.clone() });
                i += 1;
            }
            assert(copy.deep_view() =~= tags.deep_view());
        },
        None => {
            assert(copy.deep_view() =~= Seq::empty());
        },
    }
    copy
}

/// Appends to `db_nodes` the rows of the siblings `nodes` and of their
/// subtrees. The siblings stand under `path`, which is empty at the top and
/// ends in `/` below it, and below `parent`, if there is one. Where the far
/// ends of the declared relations are texts of identities, so are the far
/// ends of all rows appended.
pub fn flatten_nodes(
    ingestion_id: &String,
    nodes: &Vec<Nodes>,
    path: &String,
    parent: &Option<(NodeId, String)>,
    db_nodes: &mut Vec<DbNode>,
    relations: &RelationMap,
)
    ensures
        final(db_nodes).deep_view() == old(db_nodes).deep_view() + flatten_list(
            ingestion_id@,
            nodes.deep_view(),
            path@,
            parent_of(*parent),
            relations@,
        ),
        far_ends_are_identities(relations@) ==> far_ends_read_back(
            final(db_nodes).deep_view(),
            old(db_nodes).len() as int,
        ),
    decreases nodes,
{
    proof {
        reveal_strlit("/");
    }
    let ghost before = db_nodes.deep_view();
    let ghost forest = nodes.deep_view();
    let ghost sound = far_ends_are_identities(relations@);
    let ghost above = parent_of(*parent);
    assert(before + Seq::<DbNodeView>::empty() =~= before);
    let mut i: usize = 0;
    while i < nodes.len()
        invariant
            i <= nodes.len(),
            "/"@ == seq!['/'],
            above == parent_of(*parent),
            forest == nodes.deep_view(),
            sound == far_ends_are_identities(relations@),
            db_nodes.deep_view() == before + flatten_list(
                ingestion_id@,
                forest.subrange(0, i as int),
                path@,
                above,
                relations@,
            ),
            sound ==> far_ends_read_back(db_nodes.deep_view(), before.len() as int),
        decreases nodes.len() - i,
    {
        let node = &nodes[i];
        proof {
            node.lemma_view();
        }
        let ghost done = db_nodes.deep_view();
        let ghost own = own_rows(ingestion_id@, node@, path@, above, relations@);
        let tags = copy_tags(&node.tags);
        let url = path.clone().concat(node.name.as_str());
        let root = DbNode::root(
            ingestion_id.clone(),
            url.clone(),
            node.name.clone(),
            node.type_field.clone(),
            tags,
        );
        let id = root.uuid;
        let name = root.name.clone();
        push_row(db_nodes, root);

        match parent {
            Some((parent_id, parent_name)) => {
                let rel = DbNode::relation(
                    id,
                    Direction::In.to_string(),
                    ImplicitRelation::IsParent.to_string(),
                    parent_id.to_string(),
                    parent_name.clone(),
                );
                push_row(db_nodes, rel);
            },
            None => {},
        }
        let ghost with_parent = done + seq![
            entity_row(ingestion_id@, url@, node.name@, node.type_field@, tags_of(node@)),
        ] + parent_rows(id.bits, above);
        assert(db_nodes.deep_view() =~= with_parent);

        let ghost declared = relations_at(relations@, url@);
        match relations.get(&url) {
            Some(list) => {
                let mut j: usize = 0;
                while j < list.len()
                    invariant
                        j <= list.len(),
                        list.deep_view() == declared,
                        declared == relations_at(relations@, url@),
                        relations@.contains_key(url@),
                        sound == far_ends_are_identities(relations@),
                        before.len() <= with_parent.len(),
                        db_nodes.deep_view() == with_parent + relation_rows(
                            id.bits,
                            declared,
                        ).subrange(0, j as int),
                        sound ==> far_ends_read_back(db_nodes.deep_view(), before.len() as int),
                    decreases list.len() - j,
                {
                    push_row(db_nodes, DbNode::from_rel(id, &list[j]));
                    assert(list@[j as int]@ == declared[j as int]);
                    assert(declared[j as int] == relations@[url@][j as int]);
                    assert(relation_rows(id.bits, declared).subrange(0, j + 1) =~= relation_rows(
                        id.bits,
                        declared,
                    ).subrange(0, j as int).push(relation_row(id.bits, declared[j as int])));
                    j += 1;
                }
                assert(relation_rows(id.bits, declared).subrange(0, j as int) =~= relation_rows(
                    id.bits,
                    declared,
                ));
            },
            None => {
                assert(relation_rows(id.bits, declared) =~= Seq::empty());
                assert(with_parent + Seq::<DbNodeView>::empty() =~= with_parent);
            },
        }
        let ghost with_declared = with_parent + relation_rows(id.bits, declared);
        assert(db_nodes.deep_view() == with_declared);

        let ghost to_children = child_rows(ingestion_id@, id.bits, url@, node@.children);
        let mut k: usize = 0;
        assert(with_declared + to_children.subrange(0, 0) =~= with_declared);
        while k < node.children.len()
            invariant
                k <= node.children.len(),
                "/"@ == seq!['/'],
                to_children == child_rows(ingestion_id@, id.bits, url@, node@.children),
                node@.children == node.children.deep_view(),
                before.len() <= with_declared.len(),
                db_nodes.deep_view() == with_declared + to_children.subrange(0, k as int),
                sound ==> far_ends_read_back(db_nodes.deep_view(), before.len() as int),
            decreases node.children.len() - k,
        {
            let c = &node.children[k];
            proof {
                c.lemma_view();
                assert(c@ == node@.children[k as int]);
            }
            let child_url = url.clone().concat("/").concat(c.name.as_str());
            let child_id = get_id_from_url(ingestion_id.clone(), child_url);
            let rel = DbNode::relation(
                id,
                Direction::Out.to_string(),
                ImplicitRelation::IsChild.to_string(),
                child_id.to_string(),
                c.name.clone(),
            );
            assert(rel@ == to_children[k as int]);
            push_row(db_nodes, rel);
            assert(to_children.subrange(0, k + 1) =~= to_children.subrange(0, k as int).push(
                to_children[k as int],
            ));
            k += 1;
        }
        assert(to_children.subrange(0, k as int) =~= to_children);
        assert(db_nodes.deep_view() =~= done + own);

        let ghost subtree = flatten_list(
            ingestion_id@,
            node@.children,
            url@ + seq!['/'],
            Some((id.bits, node.name@)),
            relations@,
        );
        if node.children.len() > 0 {
            let mut new_path = path.clone();
            new_path.append(node.name.as_str());
            new_path.append("/");
            assert(new_path@ =~= url@ + seq!['/']);
            let below = Some((id, name));
            flatten_nodes(ingestion_id, &node.children, &new_path, &below, db_nodes, relations);
        } else {
            assert(subtree =~= Seq::empty());
            assert(done + own + subtree =~= done + own);
        }
        proof {
            let upto = forest.subrange(0, i + 1);
            let earlier = flatten_list(
                ingestion_id@,
                forest.subrange(0, i as int),
                path@,
                above,
                relations@,
            );
            assert(db_nodes.deep_view() == done + own + subtree);
            assert(upto.drop_last() =~= forest.subrange(0, i as int));
            assert(upto.last() == node@);
            assert(flatten_node(ingestion_id@, node@, path@, above, relations@) == own + subtree);
            assert(flatten_list(ingestion_id@, upto, path@, above, relations@) == earlier + (own
                + subtree));
            assert(before + earlier + own + subtree =~= before + (earlier + (own + subtree)));
        }
        i += 1;
    }
    assert(forest.subrange(0, i as int) =~= forest);
}

/// The rows of a document: those of its top-level nodes and of everything
/// below them.
pub fn process_nodes(ingestion_id: &String, nodes: Vec<Nodes>, relations: RelationMap) -> (rows:
    Vec<DbNode>)
    ensures
        rows.deep_view() == rows_of(ingestion_id@, nodes.deep_view(), relations@),
        far_ends_are_identities(relations@) ==> far_ends_read_back(rows.deep_view(), 0),
{
    let mut db_nodes: Vec<DbNode> = Vec::new();
    let parent: Option<(NodeId, String)> = None;
    let path = String::new();
    assert(db_nodes.deep_view() =~= Seq::empty());
    flatten_nodes(ingestion_id, &nodes, &path, &parent, &mut db_nodes, &relations);
    assert(Seq::<DbNodeView>::empty() + rows_of(ingestion_id@, nodes.deep_view(), relations@)
        =~= rows_of(ingestion_id@, nodes.deep_view(), relations@));
    db_nodes
}

/// The rows of a document whose top-level nodes are `nodes`.
pub open spec fn rows_of(
    ingestion_id: Seq<char>,
    nodes: Seq<NodesView>,
    relations: Map<Seq<char>, Seq<RelationView>>,
) -> Seq<DbNodeView> {
    flatten_list(ingestion_id, nodes, Seq::empty(), None, relations)
}

/// The rows of one ingested document: its relations are indexed by the path
/// of their owner, then its nodes are flattened. The far end of every edge
/// row is the text of an identity, so that a reader can follow the edge
/// without looking anything up.
pub fn file_rows(ingestion_id: &String, contents: File) -> (rows: Vec<DbNode>)
    requires
        ends_are_given(contents@.relations),
    ensures
        rows.deep_view() == rows_of(
            ingestion_id@,
            contents@.nodes,
            declared_relations(ingestion_id@, contents@.relations),
        ),
        far_ends_read_back(rows.deep_view(), 0),
{
    let relations = process_relations(ingestion_id.as_str(), contents.relations);
    process_nodes(ingestion_id, contents.nodes, relations)
}

} // verus!
