//! The snapshot: the arena of elements, and the stack discipline that links them.

use crate::element::{positions, Element, ElementId};
use crate::forest::Forest;
use vstd::prelude::*;

verus! {

/// A tree of elements recorded during one build pass.
///
/// `push`, `insert` and `pop` build the tree; `clear` empties it for the next
/// pass. The registry is carried along for the diagnostic listing and plays no
/// part in the structure of the tree.
pub struct Snapshot<P, R> {
    /// The arena: the element with identifier `i` is at position `i`.
    pub tree: Vec<Element<P>>,
    /// The elements without a parent, in build order.
    pub roots: Vec<ElementId>,
    /// The elements that are currently open, outermost first.
    pub stack: Vec<ElementId>,
    /// The registry: asked for the tag of an element, it gives the way to show
    /// the payload of such an element, if it knows one.
    pub registry: R,
}

/// A breach of the stack discipline: `pop` has to name the innermost open element.
#[derive(Debug, Clone, Copy, PartialEq, Eq, Structural)]
pub enum StackViolation {
    /// No element is open.
    Empty,
    /// The innermost open element is `top`, not `given`.
    Mismatch { top: ElementId, given: ElementId },
}

impl StackViolation {
    /// The diagnostic that goes with the violation.
    pub fn message(&self) -> (text: &'static str)
        ensures
            self is Empty ==> text@ == "Cannot pop when there are no elements on the stack."@,
            self is Mismatch ==> text@ == "Snapshot::pop popped the wrong element!"@,
    {
        match self {
            StackViolation::Empty => "Cannot pop when there are no elements on the stack.",
            StackViolation::Mismatch { .. } => "Snapshot::pop popped the wrong element!",
        }
    }
}

impl<P, R> View for Snapshot<P, R> {
    type V = Forest<P>;

    open spec fn view(&self) -> Forest<P> {
        Forest {
            nodes: self.tree@.map_values(|element: Element<P>| element@),
            roots: positions(self.roots@),
            stack: positions(self.stack@),
        }
    }
}

impl<P, R> Snapshot<P, R> {
    /// The invariant of a snapshot, stated on its view.
    pub open spec fn wf(&self) -> bool {
        self@.wf()
    }

    /// An empty snapshot that owns `registry`.
    pub fn new(registry: R) -> (snapshot: Self)
        ensures
            snapshot@ == Forest::<P>::empty(),
            snapshot.registry == registry,
            snapshot.wf(),
    {
        let snapshot = Snapshot { tree: Vec::new(), roots: Vec::new(), stack: Vec::new(), registry };
        proof {
            assert(snapshot@.nodes =~= Forest::<P>::empty().nodes);
            assert(snapshot@.roots =~= Forest::<P>::empty().roots);
            assert(snapshot@.stack =~= Forest::<P>::empty().stack);
            Forest::<P>::lemma_empty_wf();
        }
        snapshot
    }

    /// Forgets every element, root and open element, whatever state the
    /// snapshot was in. The registry stays.
    pub fn clear(&mut self)
        ensures
            final(self)@ == old(self)@.clear(),
            final(self)@ == Forest::<P>::empty(),
            final(self).registry == old(self).registry,
            final(self).wf(),
    {
        self.tree.clear();
        self.roots.clear();
        self.stack.clear();
        proof {
            assert(self@.nodes =~= Forest::<P>::empty().nodes);
            assert(self@.roots =~= Forest::<P>::empty().roots);
            assert(self@.stack =~= Forest::<P>::empty().stack);
            Forest::<P>::lemma_empty_wf();
        }
    }

    /// The element that `id` stands for, if the arena holds one at that position.
    pub fn get(&self, id: ElementId) -> (found: Option<&Element<P>>)
        ensures
            id@ < self.tree@.len() ==> found == Some(&self.tree@[id@ as int]),
            id@ >= self.tree@.len() ==> found is None,
    {
        let index = id.index();
        if index < self.tree.len() {
            Some(&self.tree[index])
        } else {
            None
        }
    }

    /// Appends `element` to the arena and links it: as the newest child of the
    /// innermost open element, or as the newest root where none is open.
    /// Returns the identifier of the new element, which is its position.
    pub fn insert(&mut self, element: Element<P>) -> (id: ElementId)
        requires
            old(self).wf(),
            old(self).tree@.len() <= u32::MAX,
            element.children@.len() == 0,
        ensures
            id@ == old(self).tree@.len(),
            final(self)@ == old(self)@.insert(element.type_id, element.props),
            final(self).registry == old(self).registry,
            final(self).wf(),
    {
        let id = ElementId::from_index(self.tree.len());
        if let Some(top) = self.stack.last() {
            let top = top.index();
            proof {
                assert(top == self@.stack.last());
            }
            self.tree[top].children.push(id);
            proof {
                let parent = old(self)@.nodes[top as int];
                assert(self.tree@[top as int]@.children =~= parent.children.push(id@));
            }
        } else {
            self.roots.push(id);
        }
        self.tree.push(element);
        proof {
            let before = old(self)@;
            let after = before.insert(element.type_id, element.props);
            assert(element@.children =~= Seq::<nat>::empty());
            assert(self@.nodes =~= after.nodes);
            assert(self@.roots =~= after.roots);
            assert(self@.stack =~= after.stack);
            before.lemma_insert_wf(element.type_id, element.props);
        }
        id
    }

    /// Inserts `element` as `insert` does and opens it: elements inserted from
    /// now on become its children, until it is popped.
    pub fn push(&mut self, element: Element<P>) -> (id: ElementId)
        requires
            old(self).wf(),
            old(self).tree@.len() <= u32::MAX,
            element.children@.len() == 0,
        ensures
            id@ == old(self).tree@.len(),
            final(self)@ == old(self)@.push(element.type_id, element.props),
            final(self).registry == old(self).registry,
            final(self).wf(),
    {
        let ghost type_id = element.type_id;
        let ghost props = element.props;
        let id = self.insert(element);
        self.stack.push(id);
        proof {
            let before = old(self)@;
            assert(self@.stack =~= before.push(type_id, props).stack);
            before.lemma_push_wf(type_id, props);
        }
        id
    }

    /// Closes the innermost open element, which has to be `id`.
    pub fn pop(&mut self, id: ElementId)
        requires
            old(self)@.can_pop(id@),
        ensures
            final(self)@ == old(self)@.pop(),
            final(self).registry == old(self).registry,
            old(self).wf() ==> final(self).wf(),
    {
        self.stack.pop();
        proof {
            let before = old(self)@;
            assert(self@.stack =~= before.pop().stack);
            if before.wf() {
                before.lemma_pop_wf();
            }
        }
    }

    /// Closes the innermost open element if it is `id`. Otherwise reports how
    /// the stack discipline was breached and leaves the snapshot as it was.
    pub fn try_pop(&mut self, id: ElementId) -> (outcome: Result<(), StackViolation>)
        ensures
            old(self)@.can_pop(id@) ==> outcome is Ok && final(self)@ == old(self)@.pop(),
            !old(self)@.can_pop(id@) ==> outcome is Err && *final(self) == *old(self),
            old(self).stack@.len() == 0 ==> outcome == Err::<(), StackViolation>(
                StackViolation::Empty,
            ),
            old(self).stack@.len() > 0 && old(self).stack@.last() != id ==> outcome == Err::<
                (),
                StackViolation,
            >(StackViolation::Mismatch { top: old(self).stack@.last(), given: id }),
            final(self).registry == old(self).registry,
            old(self).wf() ==> final(self).wf(),
    {
        match self.stack.last() {
            None => Err(StackViolation::Empty),
            Some(top) => {
                let top = *top;
                proof {
                    ElementId::lemma_view_injective(top, id);
                }
                if top != id {
                    Err(StackViolation::Mismatch { top, given: id })
                } else {
                    self.pop(id);
                    Ok(())
                }
            },
        }
    }
}

} // verus!
