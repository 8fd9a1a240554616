//! What a traversal computes: the expansion of a node against a store, and
//! the proof that the engine, step by step, arrives at it.

use vstd::prelude::*;

use crate::data::model::{traversal_node_of_rows, TraversalNodeView};
use crate::db::model::DbRelationView;
use crate::traversal::{
    levelled, settled, step_of, with_child, ActionView, FrameView, TraversalView,
};

verus! {

/// What reads give: for each text the rows read under it, or nothing where
/// the read fails.
pub type Store = spec_fn(Seq<char>) -> Option<Seq<DbRelationView>>;

/// The node that the store holds under `id`, seen at `depth`.
pub open spec fn node_at(store: Store, id: Seq<char>, depth: nat) -> Option<TraversalNodeView> {
    match store(id) {
        Some(rows) => traversal_node_of_rows(rows, depth),
        None => None,
    }
}

/// `trees` with one more tree behind them, where there is one.
pub open spec fn with_tree(
    trees: Seq<TraversalNodeView>,
    tree: Option<TraversalNodeView>,
) -> Seq<TraversalNodeView> {
    match tree {
        Some(tree) => trees.push(tree),
        None => trees,
    }
}

/// The expansion of the node `id` at `depth`: the node itself and, where it
/// stands above `max` and has relations, the expansions of the nodes it
/// relates to, one level down. There is none where the node cannot be read.
pub open spec fn expansion(store: Store, id: Seq<char>, depth: nat, max: nat) -> Option<
    TraversalNodeView,
>
    decreases max - depth, 0nat, 0nat,
{
    match node_at(store, id, depth) {
        Some(node) => if depth < max && node.relation_ids.len() > 0 {
            Some(
                TraversalNodeView {
                    relations: expansions(store, node.relation_ids, depth + 1, max),
                    ..node
                },
            )
        } else {
            Some(node)
        },
        None => None,
    }
}

/// The expansions of the nodes `ids` at `depth`, in the order of `ids`,
/// without those that cannot be read.
pub open spec fn expansions(store: Store, ids: Seq<Seq<char>>, depth: nat, max: nat) -> Seq<
    TraversalNodeView,
>
    decreases max - depth, 1nat, ids.len(),
{
    if ids.len() == 0 {
        Seq::empty()
    } else {
        with_tree(
            expansions(store, ids.drop_last(), depth, max),
            expansion(store, ids.last(), depth, max),
        )
    }
}

/// Where the engine stands after `n` steps in which each read is answered by
/// the store. A finished traversal stays as it is.
pub open spec fn steps(store: Store, state: TraversalView, action: ActionView, n: nat) -> (
    TraversalView,
    ActionView,
)
    decreases n,
{
    if n == 0 {
        (state, action)
    } else {
        match action {
            ActionView::Read { id } => {
                let (next, then) = step_of(state, store(id));
                steps(store, next, then, (n - 1) as nat)
            },
            ActionView::Done { .. } => (state, action),
        }
    }
}

proof fn lemma_steps_add(store: Store, state: TraversalView, action: ActionView, n: nat, m: nat)
    ensures
        steps(store, state, action, n + m) == ({
            let (next, then) = steps(store, state, action, n);
            steps(store, next, then, m)
        }),
    decreases n,
{
    if n > 0 {
        match action {
            ActionView::Read { id } => {
                let (next, then) = step_of(state, store(id));
                lemma_steps_add(store, next, then, (n - 1) as nat, m);
                assert(steps(store, state, action, n + m) == steps(
                    store,
                    next,
                    then,
                    (n + m - 1) as nat,
                ));
            },
            ActionView::Done { .. } => {
                lemma_steps_done(store, state, action, m);
                lemma_steps_done(store, state, action, n + m);
            },
        }
    }
}

proof fn lemma_steps_done(store: Store, state: TraversalView, action: ActionView, n: nat)
    requires
        action is Done,
    ensures
        steps(store, state, action, n) == (state, action),
{
}

/// The state in which the node `id`, one level below `stack`, is asked for.
pub open spec fn asking(max: nat, stack: Seq<FrameView>) -> TraversalView {
    TraversalView { max_depth: max, stack, awaiting: true }
}

/// From the read of a node the engine goes, in some number of steps, to
/// where it stands once the expansion of that node is over.
proof fn lemma_expands_node(store: Store, max: nat, stack: Seq<FrameView>, id: Seq<char>) -> (n:
    nat)
    ensures
        steps(store, asking(max, stack), ActionView::Read { id }, n) == settled(
            max,
            stack,
            expansion(store, id, stack.len(), max),
        ),
    decreases max - stack.len(), 1nat, 0nat,
{
    let depth = stack.len();
    let state = asking(max, stack);
    let built = node_at(store, id, depth);
    let (next, then) = step_of(state, store(id));
    assert(steps(store, state, ActionView::Read { id }, 1) == steps(store, next, then, 0));
    if built is Some && depth < max && built->0.relation_ids.len() > 0 {
        let node = built->0;
        assert(node.relations =~= expansions(store, node.relation_ids.take(0), depth + 1, max));
        let m = lemma_expands_children(store, max, stack, node, 0);
        lemma_steps_add(store, state, ActionView::Read { id }, 1, m);
        1 + m
    } else {
        1
    }
}

/// From the read of the `k`-th relation of a node, whose earlier relations
/// are expanded, the engine goes, in some number of steps, to where it
/// stands once every relation of the node is expanded.
proof fn lemma_expands_children(
    store: Store,
    max: nat,
    stack: Seq<FrameView>,
    node: TraversalNodeView,
    k: nat,
) -> (n: nat)
    requires
        stack.len() < max,
        k < node.relation_ids.len(),
        node.relations == expansions(store, node.relation_ids.take(k as int), stack.len() + 1, max),
    ensures
        steps(
            store,
            asking(max, stack.push(FrameView { node, next: k })),
            ActionView::Read { id: node.relation_ids[k as int] },
            n,
        ) == settled(
            max,
            stack,
            Some(
                TraversalNodeView {
                    relations: expansions(store, node.relation_ids, stack.len() + 1, max),
                    ..node
                },
            ),
        ),
    decreases max - stack.len(), 0nat, node.relation_ids.len() - k,
{
    let ids = node.relation_ids;
    let below = stack.push(FrameView { node, next: k });
    let state = asking(max, below);
    let read = ActionView::Read { id: ids[k as int] };
    let child = expansion(store, ids[k as int], below.len(), max);
    let raised = with_child(node, child);
    assert(ids.take(k as int + 1).drop_last() =~= ids.take(k as int));
    assert(ids.take(k as int + 1).last() == ids[k as int]);
    assert(raised.relations == expansions(store, ids.take(k as int + 1), stack.len() + 1, max));
    assert(below.drop_last() =~= stack);

    let first = lemma_expands_node(store, max, below, ids[k as int]);
    if k + 1 < ids.len() {
        let rest = lemma_expands_children(store, max, stack, raised, k + 1);
        lemma_steps_add(store, state, read, first, rest);
        first + rest
    } else {
        assert(ids.take(k as int + 1) =~= ids);
        first
    }
}

/// Driven against a store, the engine finishes after some number of steps,
/// and with the expansion of the node it began at: that node at depth 0
/// and, down to `max`, under each node the nodes it relates to, in the order
/// of its relation ids, without those that cannot be read.
pub proof fn lemma_traversal_is_the_expansion(store: Store, id: Seq<char>, max: nat) -> (n: nat)
    ensures
        steps(store, asking(max, Seq::empty()), ActionView::Read { id }, n) == (
            TraversalView { max_depth: max, stack: Seq::empty(), awaiting: false },
            ActionView::Done { tree: expansion(store, id, 0, max) },
        ),
{
    lemma_expands_node(store, max, Seq::empty(), id)
}

proof fn lemma_expansions_are_levelled(store: Store, ids: Seq<Seq<char>>, depth: nat, max: nat)
    requires
        depth <= max,
    ensures
        forall|i: int|
            0 <= i < expansions(store, ids, depth, max).len() ==> levelled(
                #[trigger] expansions(store, ids, depth, max)[i],
                depth,
                max,
            ),
    decreases max - depth, 1nat, ids.len(),
{
    if ids.len() > 0 {
        let front = expansions(store, ids.drop_last(), depth, max);
        let all = expansions(store, ids, depth, max);
        lemma_expansions_are_levelled(store, ids.drop_last(), depth, max);
        lemma_expansion_is_levelled(store, ids.last(), depth, max);
        assert forall|i: int| 0 <= i < all.len() implies levelled(#[trigger] all[i], depth, max) by {
            if i < front.len() {
                assert(all[i] == front[i]);
            }
        }
    }
}

/// In the expansion of a node every node stands one level below the node
/// above it, and none below `max`: the depth of each is at most `max`.
pub proof fn lemma_expansion_is_levelled(store: Store, id: Seq<char>, depth: nat, max: nat)
    requires
        depth <= max,
    ensures
        expansion(store, id, depth, max) matches Some(tree) ==> levelled(tree, depth, max),
    decreases max - depth, 0nat, 0nat,
{
    match node_at(store, id, depth) {
        Some(node) => {
            let tree = expansion(store, id, depth, max)->0;
            if depth < max && node.relation_ids.len() > 0 {
                lemma_expansions_are_levelled(store, node.relation_ids, depth + 1, max);
                assert(tree.relations == expansions(store, node.relation_ids, depth + 1, max));
            } else {
                assert(tree.relations.len() == 0);
            }
            assert(tree.depth == depth);
            assert forall|i: int| 0 <= i < tree.relations.len() implies levelled(
                #[trigger] tree.relations[i],
                depth + 1,
                max,
            ) by {}
        },
        None => {},
    }
}

} // verus!
