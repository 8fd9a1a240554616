//! The traversal engine: bounded-depth expansion of the graph from one node.
//!
//! The engine reads nothing itself. It says which partition it needs next,
//! takes what was read, and goes on until the tree is complete.

use vstd::prelude::*;

use crate::data::model::{
    far_ends_are_named, traversal_node_of_rows, TraversalNode, TraversalNodeView,
};
use crate::db::model::{DbRelation, DbRelationView};

verus! {

/// What the engine asks of its driver.
#[derive(Debug, PartialEq, Eq)]
pub enum TraversalAction {
    /// Read the partition of `id` and hand the rows to the next step.
    Read { id: String },
    /// The traversal is over. There is no tree where the root could not be
    /// read.
    Done { tree: Option<TraversalNode> },
}

/// What a [`TraversalAction`] holds.
pub enum ActionView {
    Read { id: Seq<char> },
    Done { tree: Option<TraversalNodeView> },
}

impl View for TraversalAction {
    type V = ActionView;

    open spec fn view(&self) -> ActionView {
        match self {
            TraversalAction::Read { id } => ActionView::Read { id: id@ },
            TraversalAction::Done { tree } => ActionView::Done { tree: tree.deep_view() },
        }
    }
}

/// A node whose children are being expanded, and the position among its
/// relation ids of the child that is being read.
struct Frame {
    node: TraversalNode,
    next: usize,
}

/// What a frame holds.
pub struct FrameView {
    pub node: TraversalNodeView,
    pub next: nat,
}

impl View for Frame {
    type V = FrameView;

    closed spec fn view(&self) -> FrameView {
        FrameView { node: self.node@, next: self.next as nat }
    }
}

impl DeepView for Frame {
    type V = FrameView;

    closed spec fn deep_view(&self) -> FrameView {
        self@
    }
}

/// The state of a traversal: the nodes from the root down to the one whose
/// child is being read, and whether a read is outstanding.
pub struct TraversalView {
    pub max_depth: nat,
    pub stack: Seq<FrameView>,
    pub awaiting: bool,
}

/// `tree` stands at `depth`, each node below it one deeper than the node
/// above, and none deeper than `max`.
pub open spec fn levelled(tree: TraversalNodeView, depth: nat, max: nat) -> bool
    decreases tree,
{
    &&& tree.depth == depth
    &&& depth <= max
    &&& forall|i: int|
        0 <= i < tree.relations.len() ==> levelled(#[trigger] tree.relations[i], depth + 1, max)
}

/// `node` with one more subtree attached behind those it has, where there
/// is one.
pub open spec fn with_child(
    node: TraversalNodeView,
    child: Option<TraversalNodeView>,
) -> TraversalNodeView {
    match child {
        Some(child) => TraversalNodeView { relations: node.relations.push(child), ..node },
        None => node,
    }
}

/// What follows once the expansion that was being read is over: `finished`
/// is its tree, or nothing where it could not be read. The tree is attached
/// to the node above, nothing is attached where there is none. Then the next
/// relation of that node is read, or, at its last relation, the node is
/// finished in turn.
pub open spec fn settle(stack: Seq<FrameView>, finished: Option<TraversalNodeView>) -> (
    Seq<FrameView>,
    ActionView,
)
    decreases stack.len(),
{
    if stack.len() == 0 {
        (stack, ActionView::Done { tree: finished })
    } else {
        let node = with_child(stack.last().node, finished);
        let next = stack.last().next + 1;
        if next < node.relation_ids.len() {
            (
                stack.drop_last().push(FrameView { node, next }),
                ActionView::Read { id: node.relation_ids[next as int] },
            )
        } else {
            settle(stack.drop_last(), Some(node))
        }
    }
}

/// One step of the traversal: `rows` are those read for the node asked for,
/// or nothing where the read failed. The node stands one level below the
/// deepest node under expansion. It is expanded where it stands above
/// `max_depth` and has relations; otherwise it is finished as it is.
pub open spec fn step_of(state: TraversalView, rows: Option<Seq<DbRelationView>>) -> (
    TraversalView,
    ActionView,
) {
    let depth = state.stack.len();
    let built = match rows {
        Some(rows) => traversal_node_of_rows(rows, depth),
        None => None,
    };
    if built is Some && depth < state.max_depth && built->0.relation_ids.len() > 0 {
        (
            TraversalView {
                stack: state.stack.push(FrameView { node: built->0, next: 0 }),
                ..state
            },
            ActionView::Read { id: built->0.relation_ids[0] },
        )
    } else {
        settled(state.max_depth, state.stack, built)
    }
}

/// The state and the action that `settle` leads to.
pub open spec fn settled(
    max_depth: nat,
    stack: Seq<FrameView>,
    finished: Option<TraversalNodeView>,
) -> (TraversalView, ActionView) {
    let (stack, action) = settle(stack, finished);
    (TraversalView { max_depth, stack, awaiting: action is Read }, action)
}

/// The rows that may be handed to a step: every row but the first names its
/// far end.
pub open spec fn rows_are_readable(rows: Option<Seq<DbRelationView>>) -> bool {
    match rows {
        Some(rows) => far_ends_are_named(rows),
        None => true,
    }
}

spec fn frame_is_sound(frame: FrameView, depth: nat, max: nat) -> bool {
    &&& frame.node.depth == depth
    &&& depth < max
    &&& frame.next < frame.node.relation_ids.len()
    &&& forall|j: int|
        0 <= j < frame.node.relations.len() ==> levelled(
            #[trigger] frame.node.relations[j],
            depth + 1,
            max,
        )
}

spec fn stack_is_sound(stack: Seq<FrameView>, max: nat) -> bool {
    forall|i: int| 0 <= i < stack.len() ==> frame_is_sound(#[trigger] stack[i], i as nat, max)
}

/// A traversal in progress. One read is outstanding at a time: the nodes
/// that a node relates to are expanded one after the other, in the order of
/// its relation ids, each with everything below it.
pub struct Traversal {
    max_depth: usize,
    stack: Vec<Frame>,
    awaiting: bool,
}

impl View for Traversal {
    type V = TraversalView;

    closed spec fn view(&self) -> TraversalView {
        TraversalView {
            max_depth: self.max_depth as nat,
            stack: self.stack.deep_view(),
            awaiting: self.awaiting,
        }
    }
}

impl Traversal {
    #[verifier::type_invariant]
    spec fn sound(&self) -> bool {
        &&& stack_is_sound(self.stack.deep_view(), self.max_depth as nat)
        &&& !self.awaiting ==> self.stack.len() == 0
    }

    /// Begins a traversal at the node `id`, to be expanded down to
    /// `max_depth`. The first thing asked for is the partition of `id`.
    pub fn start(id: String, max_depth: usize) -> (begun: (Traversal, TraversalAction))
        ensures
            begun.0@ == (TraversalView {
                max_depth: max_depth as nat,
                stack: Seq::empty(),
                awaiting: true,
            }),
            begun.1@ == (ActionView::Read { id: id@ }),
    {
        let traversal = Traversal { max_depth, stack: Vec::new(), awaiting: true };
        assert(traversal.stack.deep_view() =~= Seq::empty());
        (traversal, TraversalAction::Read { id })
    }

    /// Whether the traversal waits for rows.
    pub fn is_awaiting(&self) -> (awaiting: bool)
        ensures
            awaiting == self@.awaiting,
    {
        self.awaiting
    }

    /// Takes the rows read for the node last asked for, or nothing where the
    /// read failed, and says what to do next. A node that cannot be read is
    /// left out of the tree; where it is the root there is no tree. In a
    /// finished tree the root stands at depth 0, each node one level below
    /// the node above it, and none deeper than `max_depth`.
    pub fn step(self, rows: Option<Vec<DbRelation>>) -> (next: (Traversal, TraversalAction))
        requires
            self@.awaiting,
            rows_are_readable(rows.deep_view()),
        ensures
            (next.0@, next.1@) == step_of(self@, rows.deep_view()),
            next.1@ matches ActionView::Done { tree: Some(tree) } ==> levelled(
                tree,
                0,
                self@.max_depth,
            ),
    {
        proof {
            use_type_invariant(&self);
        }
        let ghost before = self@;
        let ghost target = step_of(self@, rows.deep_view());
        let Traversal { max_depth, mut stack, awaiting } = self;
        let depth = stack.len();
        let built = match rows {
            Some(rows) => TraversalNode::from(rows, depth),
            None => None,
        };
        let ghost built_view = built.deep_view();
        let expands = match &built {
            Some(node) => depth < max_depth && node.relation_ids.len() > 0,
            None => false,
        };
        if expands {
            let node = built.unwrap();
            let id = node.relation_ids[0].clone();
            stack.push(Frame { node, next: 0 });
            assert(stack.deep_view() =~= before.stack.push(
                FrameView { node: built_view->0, next: 0 },
            ));
            return (Traversal { max_depth, stack, awaiting: true }, TraversalAction::Read { id });
        }
        let mut finished = built;
        while stack.len() > 0
            invariant
                stack_is_sound(stack.deep_view(), max_depth as nat),
                target == step_of(self@, rows.deep_view()),
                target == settled(max_depth as nat, stack.deep_view(), finished.deep_view()),
                finished matches Some(tree) ==> levelled(
                    tree@,
                    stack.len() as nat,
                    max_depth as nat,
                ),
            decreases stack.len(),
        {
            let ghost frames = stack.deep_view();
            let mut top = stack.pop().unwrap();
            assert(top@ == frames.last());
            assert(stack.deep_view() =~= frames.drop_last());
            assert(frame_is_sound(frames[frames.len() - 1], stack.len() as nat, max_depth as nat));
            let ghost raised = with_child(top.node@, finished.deep_view());
            proof {
                top.node.lemma_view();
            }
            match finished {
                Some(child) => {
                    top.node.relations.push(child);
                    proof {
                        top.node.lemma_view();
                    }
                    assert(top.node@.relations =~= raised.relations);
                },
                None => {},
            }
            assert(top.node@ == raised);
            assert(top.next < top.node.relation_ids.len()) by {
                top.node.lemma_view();
            }
            let next = top.next + 1;
            if next < top.node.relation_ids.len() {
                let id = top.node.relation_ids[next].clone();
                top.next = next;
                stack.push(top);
                assert(stack.deep_view() =~= frames.drop_last().push(
                    FrameView { node: raised, next: next as nat },
                ));
                return (
                    Traversal { max_depth, stack, awaiting: true },
                    TraversalAction::Read { id },
                );
            }
            finished = Some(top.node);
        }
        assert(stack.deep_view() =~= Seq::empty());
        (Traversal { max_depth, stack, awaiting: false }, TraversalAction::Done { tree: finished })
    }
}

} // verus!
