//! Bounded fan-out: items are handed out in their order while no more than a
//! given number of them are in work at once.
//!
//! The dispatcher starts nothing itself. It says whether the next item may
//! start or a completion has to be awaited, and is told of each completion.

use std::collections::VecDeque;
use vstd::prelude::*;

verus! {

/// What the driver is to do next.
#[derive(Debug, PartialEq, Eq)]
pub enum DispatchAction<T> {
    /// Start the work on `item`.
    Launch { item: T },
    /// Await the completion of an item in work, and report it.
    Wait,
    /// Every item was started and has completed.
    Finished { completed: usize, failed: usize },
}

/// The state of a dispatcher.
pub struct DispatchView<T> {
    /// The items not yet started, in their order.
    pub pending: Seq<T>,
    /// How many items may be in work at once.
    pub limit: nat,
    /// How many items are in work.
    pub in_flight: nat,
    /// How many items have completed.
    pub completed: nat,
    /// How many of them failed.
    pub failed: nat,
}

/// What to do in a state. An item starts where one is left and fewer than
/// `limit` are in work. The dispatcher waits while items are in work that
/// stand in the way of the next, or are the last. It has finished when
/// nothing is left and nothing in work.
pub open spec fn dispatch_next<T>(state: DispatchView<T>) -> (DispatchView<T>, DispatchAction<T>) {
    if state.pending.len() > 0 && state.in_flight < state.limit {
        (
            DispatchView {
                pending: state.pending.drop_first(),
                in_flight: state.in_flight + 1,
                ..state
            },
            DispatchAction::Launch { item: state.pending.first() },
        )
    } else if state.pending.len() > 0 || state.in_flight > 0 {
        (state, DispatchAction::Wait)
    } else {
        (
            state,
            DispatchAction::Finished {
                completed: state.completed as usize,
                failed: state.failed as usize,
            },
        )
    }
}

/// The state after one item in work has completed, well or not. A failure is
/// counted and stops nothing.
pub open spec fn dispatch_completed<T>(state: DispatchView<T>, ok: bool) -> DispatchView<T> {
    DispatchView {
        in_flight: (state.in_flight - 1) as nat,
        completed: state.completed + 1,
        failed: if ok {
            state.failed
        } else {
            state.failed + 1
        },
        ..state
    }
}

/// The items that a state accounts for: those not yet started, those in
/// work and those completed.
pub open spec fn accounted<T>(state: DispatchView<T>) -> nat {
    state.pending.len() + state.in_flight + state.completed
}

/// No step starts an item beyond the limit: where no more than `limit` items
/// are in work before a step, no more are in work after it.
pub proof fn lemma_dispatch_keeps_the_bound<T>(state: DispatchView<T>, ok: bool)
    requires
        state.in_flight <= state.limit,
    ensures
        dispatch_next(state).0.in_flight <= state.limit,
        dispatch_next(state).0.limit == state.limit,
        state.in_flight > 0 ==> dispatch_completed(state, ok).in_flight <= state.limit,
        dispatch_completed(state, ok).limit == state.limit,
{
}

/// No step loses or invents an item, items start in their order, and a
/// dispatcher that has finished has seen every item complete.
pub proof fn lemma_dispatch_loses_nothing<T>(state: DispatchView<T>, ok: bool)
    ensures
        accounted(dispatch_next(state).0) == accounted(state),
        state.in_flight > 0 ==> accounted(dispatch_completed(state, ok)) == accounted(state),
        dispatch_next(state).1 matches DispatchAction::Launch { item } ==> state.pending
            == seq![item] + dispatch_next(state).0.pending,
        dispatch_next(state).1 is Finished ==> state.completed == accounted(state),
{
    if state.pending.len() > 0 {
        assert(state.pending =~= seq![state.pending.first()] + state.pending.drop_first());
    }
}

/// Hands out items for work, no more than `limit` at once.
pub struct Dispatch<T> {
    pending: VecDeque<T>,
    limit: usize,
    in_flight: usize,
    completed: usize,
    failed: usize,
}

impl<T> View for Dispatch<T> {
    type V = DispatchView<T>;

    closed spec fn view(&self) -> DispatchView<T> {
        DispatchView {
            pending: self.pending@,
            limit: self.limit as nat,
            in_flight: self.in_flight as nat,
            completed: self.completed as nat,
            failed: self.failed as nat,
        }
    }
}

impl<T> Dispatch<T> {
    #[verifier::type_invariant]
    spec fn sound(&self) -> bool {
        &&& self.in_flight <= self.limit
        &&& self.failed <= self.completed
        &&& self.pending@.len() + self.in_flight + self.completed <= usize::MAX
    }

    /// A dispatcher for `items`, of which `limit` may be in work at once.
    pub fn new(items: Vec<T>, limit: usize) -> (dispatch: Dispatch<T>)
        ensures
            dispatch@ == (DispatchView {
                pending: items@,
                limit: limit as nat,
                in_flight: 0,
                completed: 0,
                failed: 0,
            }),
    {
        let ghost total = items@.len();
        assert(total <= usize::MAX) by {
            assert(items.len() == total);
        }
        let mut pending: VecDeque<T> = VecDeque::new();
        for item in it: items
            invariant
                it.seq() == items@,
                total == items@.len(),
                pending@ == items@.subrange(0, it.index() as int),
        {
            pending.push_back(item);
            assert(pending@ =~= items@.subrange(0, it.index() + 1));
        }
        assert(pending@ =~= items@);
        Dispatch { pending, limit, in_flight: 0, completed: 0, failed: 0 }
    }

    /// How many items are in work. It never exceeds the limit.
    pub fn in_flight(&self) -> (count: usize)
        ensures
            count == self@.in_flight,
            count <= self@.limit,
    {
        proof {
            use_type_invariant(self);
        }
        self.in_flight
    }

    /// Says what to do next.
    pub fn next(self) -> (next: (Dispatch<T>, DispatchAction<T>))
        ensures
            (next.0@, next.1) == dispatch_next(self@),
            next.0@.in_flight <= next.0@.limit,
    {
        proof {
            use_type_invariant(&self);
        }
        let Dispatch { mut pending, limit, in_flight, completed, failed } = self;
        if pending.len() > 0 && in_flight < limit {
            let item = pending.pop_front().unwrap();
            (
                Dispatch { pending, limit, in_flight: in_flight + 1, completed, failed },
                DispatchAction::Launch { item },
            )
        } else if pending.len() > 0 || in_flight > 0 {
            (Dispatch { pending, limit, in_flight, completed, failed }, DispatchAction::Wait)
        } else {
            (
                Dispatch { pending, limit, in_flight, completed, failed },
                DispatchAction::Finished { completed, failed },
            )
        }
    }

    /// Takes the report that one item in work has completed, well or not.
    pub fn completed(self, ok: bool) -> (next: Dispatch<T>)
        requires
            self@.in_flight > 0,
        ensures
            next@ == dispatch_completed(self@, ok),
            next@.in_flight <= next@.limit,
    {
        proof {
            use_type_invariant(&self);
        }
        let Dispatch { pending, limit, in_flight, completed, failed } = self;
        Dispatch {
            pending,
            limit,
            in_flight: in_flight - 1,
            completed: completed + 1,
            failed: if ok {
                failed
            } else {
                failed + 1
            },
        }
    }
}

} // verus!
