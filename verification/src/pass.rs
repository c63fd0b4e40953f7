//! Build passes as sequences of steps, and the laws that hold of every pass.

use crate::forest::Forest;
use crate::lists::ascending;
use std::any::TypeId;
use vstd::prelude::*;

verus! {

/// One call of a build pass.
pub enum Step<P> {
    /// `insert` of an element with this tag and payload.
    Insert { type_id: TypeId, props: P },
    /// `push` of an element with this tag and payload.
    Push { type_id: TypeId, props: P },
    /// `pop` of the element at this position.
    Pop { id: nat },
}

impl<P> Forest<P> {
    /// Whether the stack discipline allows `step` in this state: an element can
    /// be popped only while it is the innermost open one.
    pub open spec fn allows(self, step: Step<P>) -> bool {
        match step {
            Step::Pop { id } => self.can_pop(id),
            _ => true,
        }
    }

    /// The state after `step`.
    pub open spec fn apply(self, step: Step<P>) -> Self {
        match step {
            Step::Insert { type_id, props } => self.insert(type_id, props),
            Step::Push { type_id, props } => self.push(type_id, props),
            Step::Pop { id } => self.pop(),
        }
    }

    /// The identifier that `step` returns, if it returns one.
    pub open spec fn issue(self, step: Step<P>) -> Seq<nat> {
        match step {
            Step::Pop { id } => Seq::empty(),
            _ => seq![self.len()],
        }
    }

    /// The state after all of `steps`, taken in order.
    pub open spec fn run(self, steps: Seq<Step<P>>) -> Self
        decreases steps.len(),
    {
        if steps.len() == 0 {
            self
        } else {
            self.run(steps.drop_last()).apply(steps.last())
        }
    }

    /// Whether `steps` is a well-formed run from this state: each step is
    /// allowed in the state that the steps before it lead to.
    pub open spec fn admits(self, steps: Seq<Step<P>>) -> bool
        decreases steps.len(),
    {
        steps.len() == 0 || (self.admits(steps.drop_last()) && self.run(steps.drop_last()).allows(
            steps.last(),
        ))
    }

    /// The identifiers that `steps` return, in the order of the calls.
    pub open spec fn issued(self, steps: Seq<Step<P>>) -> Seq<nat>
        decreases steps.len(),
    {
        if steps.len() == 0 {
            Seq::empty()
        } else {
            self.issued(steps.drop_last()) + self.run(steps.drop_last()).issue(steps.last())
        }
    }

    /// Whether this state keeps all of `earlier`: every node of `earlier` is
    /// still at its position with its tag and payload, and every list of links
    /// of `earlier` is the beginning of the same list here.
    pub open spec fn extends(self, earlier: Self) -> bool {
        &&& earlier.len() <= self.len()
        &&& earlier.roots.is_prefix_of(self.roots)
        &&& forall|i: int|
            0 <= i < earlier.nodes.len() ==> {
                &&& (#[trigger] self.nodes[i]).type_id == earlier.nodes[i].type_id
                &&& self.nodes[i].props == earlier.nodes[i].props
                &&& earlier.nodes[i].children.is_prefix_of(self.nodes[i].children)
            }
    }

    /// One allowed step preserves the invariant, keeps what was built, and
    /// issues the position at which the arena ended before it.
    pub proof fn lemma_step(self, step: Step<P>)
        requires
            self.wf(),
            self.allows(step),
        ensures
            self.apply(step).wf(),
            self.apply(step).extends(self),
            self.apply(step).len() == self.len() + self.issue(step).len(),
    {
        match step {
            Step::Insert { type_id, props } => {
                self.lemma_insert_wf(type_id, props);
            },
            Step::Push { type_id, props } => {
                self.lemma_insert_wf(type_id, props);
                self.lemma_push_wf(type_id, props);
            },
            Step::Pop { id } => {
                self.lemma_pop_wf();
            },
        }
    }

    /// Every state of every well-formed build pass meets the invariant: in
    /// particular its roots and child lists, flattened, hold each position of
    /// the arena exactly once.
    pub proof fn lemma_run_wf(self, steps: Seq<Step<P>>)
        requires
            self.wf(),
            self.admits(steps),
        ensures
            self.run(steps).wf(),
            self.run(steps).partitioned(),
            self.run(steps).links().len() == self.run(steps).len(),
        decreases steps.len(),
    {
        if steps.len() > 0 {
            self.lemma_run_wf(steps.drop_last());
            self.run(steps.drop_last()).lemma_step(steps.last());
        }
        self.run(steps).lemma_links_len();
    }

    /// The identifiers issued by a well-formed run are consecutive, starting at
    /// the length that the arena had: each is new, and each is larger than the
    /// ones issued before it.
    pub proof fn lemma_issued_ascending(self, steps: Seq<Step<P>>)
        requires
            self.wf(),
            self.admits(steps),
        ensures
            self.run(steps).len() == self.len() + self.issued(steps).len(),
            forall|k: int|
                0 <= k < self.issued(steps).len() ==> #[trigger] self.issued(steps)[k] == self.len()
                    + k,
            ascending(self.issued(steps)),
            self.issued(steps).no_duplicates(),
        decreases steps.len(),
    {
        if steps.len() > 0 {
            let before = steps.drop_last();
            self.lemma_issued_ascending(before);
            self.lemma_run_wf(before);
            self.run(before).lemma_step(steps.last());
        }
    }

    /// A well-formed run keeps what was built before it: nodes stay where they
    /// are with their tag and payload, and lists of links only grow at the end.
    pub proof fn lemma_run_extends(self, steps: Seq<Step<P>>)
        requires
            self.wf(),
            self.admits(steps),
        ensures
            self.run(steps).extends(self),
        decreases steps.len(),
    {
        if steps.len() > 0 {
            let before = steps.drop_last();
            self.lemma_run_extends(before);
            self.lemma_run_wf(before);
            self.run(before).lemma_step(steps.last());
        }
    }

    /// What a step inserts or pushes is found at the identifier that the step
    /// returns, with its tag and payload, whatever well-formed run follows.
    pub proof fn lemma_inserted_stays(
        self,
        step: Step<P>,
        type_id: TypeId,
        props: P,
        rest: Seq<Step<P>>,
    )
        requires
            self.wf(),
            step == (Step::Insert { type_id, props }) || step == (Step::Push { type_id, props }),
            self.apply(step).admits(rest),
        ensures
            self.issue(step) == seq![self.len()],
            self.len() < self.apply(step).run(rest).len(),
            self.apply(step).run(rest).nodes[self.len() as int].type_id == type_id,
            self.apply(step).run(rest).nodes[self.len() as int].props == props,
    {
        self.lemma_step(step);
        self.apply(step).lemma_run_extends(rest);
    }

    /// A build pass that starts after `clear` runs exactly as one that starts
    /// on a new snapshot, whatever was cleared: it ends in the same state and
    /// issues the same identifiers.
    pub proof fn lemma_fresh_start(self, steps: Seq<Step<P>>)
        ensures
            self.clear().wf(),
            self.clear().len() == 0,
            self.clear().admits(steps) == Self::empty().admits(steps),
            self.clear().run(steps) == Self::empty().run(steps),
            self.clear().issued(steps) == Self::empty().issued(steps),
    {
        Self::lemma_empty_wf();
    }
}

} // verus!
