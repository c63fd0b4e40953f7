//! The mathematical model of a tree under construction: what a snapshot is, what
//! each building step does to it, and what every step preserves.

use crate::element::Node;
use crate::lists::{
    ascending, ends_with, lemma_count_of_range, lemma_flatten_found, lemma_flatten_holds,
    lemma_flatten_holds_twice, lemma_flatten_update, positions_below, within,
};
use std::any::TypeId;
use vstd::prelude::*;
use vstd::seq_lib::*;

verus! {

/// The state of a snapshot as plain mathematics: the arena, the top-level
/// entries, and the chain of entries that are currently open.
pub struct Forest<P> {
    /// The arena; a node's position is its identifier.
    pub nodes: Seq<Node<P>>,
    /// Positions of the nodes without a parent, in build order.
    pub roots: Seq<nat>,
    /// Positions of the open nodes, outermost first.
    pub stack: Seq<nat>,
}

impl<P> Forest<P> {
    /// The forest with no nodes.
    pub open spec fn empty() -> Self {
        Forest { nodes: Seq::empty(), roots: Seq::empty(), stack: Seq::empty() }
    }

    /// The number of nodes, which is also the next identifier to be issued.
    pub open spec fn len(self) -> nat {
        self.nodes.len()
    }

    /// The child list of every node, in arena order.
    pub open spec fn child_lists(self) -> Seq<Seq<nat>> {
        self.nodes.map_values(|node: Node<P>| node.children)
    }

    /// Every link of the forest: the roots, followed by the children of node 0,
    /// of node 1, and so on.
    pub open spec fn links(self) -> Seq<nat> {
        self.roots + self.child_lists().flatten()
    }

    /// How many links point at position `i`.
    pub open spec fn times_linked(self, i: nat) -> nat {
        self.links().to_multiset().count(i)
    }

    /// Whether position `i` is listed among the roots.
    pub open spec fn is_root(self, i: nat) -> bool {
        self.roots.contains(i)
    }

    /// Whether the node at position `p` lists position `i` among its children.
    pub open spec fn is_child_of(self, i: nat, p: int) -> bool {
        0 <= p < self.nodes.len() && self.nodes[p].children.contains(i)
    }

    /// Whether following `hops` child links from position `from` can lead to
    /// position `to`.
    pub open spec fn reaches(self, from: nat, to: nat, hops: nat) -> bool
        decreases hops,
    {
        if hops == 0 {
            from == to
        } else {
            exists|via: nat| #[trigger]
                self.is_child_of(via, from as int) && self.reaches(via, to, (hops - 1) as nat)
        }
    }

    /// Links point at existing nodes, a child comes after its parent, and every
    /// list of links is in build order.
    pub open spec fn ordered(self) -> bool {
        &&& ascending(self.roots)
        &&& within(self.roots, 0, self.len())
        &&& forall|p: int|
            0 <= p < self.nodes.len() ==> ascending(#[trigger] self.nodes[p].children) && within(
                self.nodes[p].children,
                (p + 1) as nat,
                self.len(),
            )
    }

    /// Every node is linked exactly once, as a root or as a child of one node,
    /// and nothing else is linked.
    pub open spec fn partitioned(self) -> bool {
        forall|i: nat| #[trigger]
            self.times_linked(i) == if i < self.len() {
                1nat
            } else {
                0nat
            }
    }

    /// The stack is a chain of ancestors: its first entry is the newest root,
    /// and each further entry is the newest child of the entry before it.
    pub open spec fn chained(self) -> bool {
        &&& ascending(self.stack)
        &&& within(self.stack, 0, self.len())
        &&& self.stack.len() > 0 ==> ends_with(self.roots, self.stack[0])
        &&& forall|k: int|
            0 < k < self.stack.len() ==> ends_with(
                self.nodes[self.stack[k - 1] as int].children,
                #[trigger] self.stack[k],
            )
    }

    /// The invariant of a snapshot.
    pub open spec fn wf(self) -> bool {
        &&& self.ordered()
        &&& self.partitioned()
        &&& self.chained()
    }

    /// The forest after a node with the given tag and payload was inserted: the
    /// new node is the last of the arena and has no children; it is linked
    /// under the innermost open node, or as a root where none is open.
    pub open spec fn insert(self, type_id: TypeId, props: P) -> Self {
        let id = self.len();
        let leaf = Node { type_id, props, children: Seq::empty() };
        if self.stack.len() > 0 {
            let top = self.stack.last() as int;
            let parent = self.nodes[top];
            let parent = Node { children: parent.children.push(id), ..parent };
            Forest { nodes: self.nodes.update(top, parent).push(leaf), ..self }
        } else {
            Forest { nodes: self.nodes.push(leaf), roots: self.roots.push(id), ..self }
        }
    }

    /// The forest after a node was inserted and opened.
    pub open spec fn push(self, type_id: TypeId, props: P) -> Self {
        let next = self.insert(type_id, props);
        Forest { stack: self.stack.push(self.len()), ..next }
    }

    /// Whether `id` is the innermost open node, the only one that may be closed.
    pub open spec fn can_pop(self, id: nat) -> bool {
        ends_with(self.stack, id)
    }

    /// The forest after the innermost open node was closed.
    pub open spec fn pop(self) -> Self {
        Forest { stack: self.stack.drop_last(), ..self }
    }

    /// The forest after it was cleared: the empty one, whatever it held.
    pub open spec fn clear(self) -> Self {
        Self::empty()
    }

    /// The empty forest meets the invariant.
    pub proof fn lemma_empty_wf()
        ensures
            Self::empty().wf(),
    {
        let f = Self::empty();
        assert(f.child_lists() =~= Seq::<Seq<nat>>::empty());
        assert(f.links() =~= Seq::<nat>::empty());
        broadcast use group_to_multiset_ensures;
        assert forall|i: nat| #[trigger] f.times_linked(i) == 0 by {
            assert(!f.links().contains(i));
        }
    }

    /// Where every node is linked exactly once and nothing else is linked,
    /// the links are the positions of the arena in some order, and there are
    /// as many links as nodes.
    pub proof fn lemma_links_len(self)
        requires
            self.partitioned(),
        ensures
            self.links().to_multiset() == positions_below(self.len()).to_multiset(),
            self.links().len() == self.len(),
    {
        let arena = positions_below(self.len());
        lemma_count_of_range(self.len());
        assert forall|i: nat| self.links().to_multiset().count(i) == arena.to_multiset().count(
            i,
        ) by {
            assert(self.times_linked(i) == if i < self.len() {
                1nat
            } else {
                0nat
            });
        }
        assert(self.links().to_multiset() =~= arena.to_multiset());
        self.links().to_multiset_ensures();
        arena.to_multiset_ensures();
    }

    /// Every node is a root or the child of exactly one node, never both.
    pub proof fn lemma_one_parent(self, i: nat)
        requires
            self.partitioned(),
            i < self.len(),
        ensures
            self.is_root(i) <==> !(exists|p: int| self.is_child_of(i, p)),
            forall|p: int, q: int| self.is_child_of(i, p) && self.is_child_of(i, q) ==> p == q,
    {
        broadcast use {group_to_multiset_ensures, lemma_multiset_commutative};
        let lists = self.child_lists();
        let flat = lists.flatten();
        assert(self.times_linked(i) == 1);
        assert(self.roots.to_multiset().count(i) + flat.to_multiset().count(i) == 1);
        if self.is_root(i) {
            assert(!flat.contains(i));
            assert forall|p: int| !self.is_child_of(i, p) by {
                if self.is_child_of(i, p) {
                    assert(lists[p].contains(i));
                    lemma_flatten_holds(lists, p, i);
                }
            }
        } else {
            assert(flat.contains(i));
            lemma_flatten_found(lists, i);
            let p = choose|p: int| 0 <= p < lists.len() && lists[p].contains(i);
            assert(self.is_child_of(i, p));
        }
        assert forall|p: int, q: int| self.is_child_of(i, p) && self.is_child_of(i, q) implies p
            == q by {
            if p < q {
                lemma_flatten_holds_twice(lists, p, q, i);
            } else if q < p {
                lemma_flatten_holds_twice(lists, q, p, i);
            }
        }
    }

    /// Every node that is reached by following child links comes later in the
    /// arena than the node from which the links were followed: no node is its
    /// own descendant.
    pub proof fn lemma_descendants_come_later(self, from: nat, to: nat, hops: nat)
        requires
            self.ordered(),
            self.reaches(from, to, hops),
            hops > 0,
        ensures
            from < to < self.len(),
        decreases hops,
    {
        let via = choose|via: nat| #[trigger]
            self.is_child_of(via, from as int) && self.reaches(via, to, (hops - 1) as nat);
        let children = self.nodes[from as int].children;
        let k = choose|k: int| 0 <= k < children.len() && children[k] == via;
        assert(from < children[k] < self.len());
        if hops > 1 {
            self.lemma_descendants_come_later(via, to, (hops - 1) as nat);
        }
    }

    /// Inserting a node adds exactly one link, and it points at the new node.
    pub proof fn lemma_insert_links(self, type_id: TypeId, props: P)
        requires
            within(self.stack, 0, self.len()),
        ensures
            self.insert(type_id, props).links().to_multiset() =~= self.links().to_multiset().insert(
                self.len(),
            ),
    {
        broadcast use {group_to_multiset_ensures, lemma_multiset_commutative, Seq::lemma_flatten_push};
        let id = self.len();
        let next = self.insert(type_id, props);
        let lists = self.child_lists();
        let none = Seq::<nat>::empty();
        if self.stack.len() > 0 {
            let top = self.stack.last() as int;
            assert(0 <= top < self.nodes.len());
            let grown = lists[top].push(id);
            assert(next.child_lists() =~= lists.update(top, grown).push(none));
            assert(lists.update(top, grown).push(none).flatten() =~= lists.update(top, grown).flatten());
            lemma_flatten_update(lists, top, grown);
            let before = lists.subrange(0, top).flatten();
            let after = lists.subrange(top + 1, lists.len() as int).flatten();
            assert(next.links() =~= self.roots + (before + grown + after));
            assert(self.links() =~= self.roots + (before + lists[top] + after));
        } else {
            assert(next.child_lists() =~= lists.push(none));
            assert(lists.push(none).flatten() =~= lists.flatten());
            assert(next.links() =~= self.roots.push(id) + lists.flatten());
        }
    }

    /// Inserting a node preserves the invariant.
    pub proof fn lemma_insert_wf(self, type_id: TypeId, props: P)
        requires
            self.wf(),
        ensures
            self.insert(type_id, props).wf(),
            self.insert(type_id, props).len() == self.len() + 1,
    {
        let next = self.insert(type_id, props);
        self.lemma_insert_links(type_id, props);
        assert forall|i: nat| #[trigger]
            next.times_linked(i) == if i < next.len() {
                1nat
            } else {
                0nat
            } by {
            assert(self.times_linked(i) == if i < self.len() {
                1nat
            } else {
                0nat
            });
        }
        assert(next.ordered());
        assert(next.chained());
    }

    /// Inserting and opening a node preserves the invariant.
    pub proof fn lemma_push_wf(self, type_id: TypeId, props: P)
        requires
            self.wf(),
        ensures
            self.push(type_id, props).wf(),
            self.push(type_id, props).len() == self.len() + 1,
    {
        let inserted = self.insert(type_id, props);
        let next = self.push(type_id, props);
        self.lemma_insert_wf(type_id, props);
        assert(next.links() == inserted.links());
        assert forall|i: nat| #[trigger]
            next.times_linked(i) == if i < next.len() {
                1nat
            } else {
                0nat
            } by {
            assert(inserted.times_linked(i) == if i < inserted.len() {
                1nat
            } else {
                0nat
            });
        }
        assert(next.chained());
    }

    /// Closing the innermost open node preserves the invariant.
    pub proof fn lemma_pop_wf(self)
        requires
            self.wf(),
            self.stack.len() > 0,
        ensures
            self.pop().wf(),
    {
        let next = self.pop();
        assert(next.links() == self.links());
        assert forall|i: nat| #[trigger]
            next.times_linked(i) == if i < next.len() {
                1nat
            } else {
                0nat
            } by {
            assert(self.times_linked(i) == if i < self.len() {
                1nat
            } else {
                0nat
            });
        }
    }
}

} // verus!
