//! Elements, their identifiers, and the mathematical view of an element.

use std::any::TypeId;
use vstd::prelude::*;

verus! {

/// `std::any::TypeId`, the runtime identifier of a type. The library never looks
/// inside one; it only stores it and hands it on.
#[verifier::external_type_specification]
#[verifier::external_body]
pub struct ExTypeId(TypeId);

/// `TypeId::of::<T>()` yields the identifier of `T`. Nothing is claimed of the
/// value that comes back.
pub assume_specification<T: ?Sized + 'static>[ TypeId::of::<T> ]() -> (id: TypeId);

/// Handle of one arena entry: its zero-based position in the arena.
#[derive(Debug, Clone, Copy, PartialEq, Eq, Structural, PartialOrd, Ord, Hash)]
pub struct ElementId(u32);

impl View for ElementId {
    type V = nat;

    /// The arena position that the identifier stands for.
    closed spec fn view(&self) -> nat {
        self.0 as nat
    }
}

impl ElementId {
    /// The arena position as a machine integer.
    pub fn index(self) -> (i: usize)
        ensures
            i == self@,
    {
        self.0 as usize
    }

    /// The identifier of arena position `i`.
    pub(crate) fn from_index(i: usize) -> (id: ElementId)
        requires
            i <= u32::MAX,
        ensures
            id@ == i,
    {
        ElementId(i as u32)
    }

    /// Two identifiers are equal exactly when they stand for the same position.
    pub proof fn lemma_view_injective(a: ElementId, b: ElementId)
        ensures
            a@ == b@ <==> a == b,
    {
    }
}

/// The positions that a sequence of identifiers stands for.
pub open spec fn positions(ids: Seq<ElementId>) -> Seq<nat> {
    ids.map_values(|id: ElementId| id@)
}

/// One node of the tree: a payload of type `P`, tagged with the runtime
/// identifier of the type it was made for, and the identifiers of its children
/// in the order in which they were inserted.
pub struct Element<P> {
    /// The runtime identifier of the type that the element was made for.
    pub type_id: TypeId,
    /// The payload.
    pub props: P,
    /// The children, in the order in which they were inserted.
    pub children: Vec<ElementId>,
}

/// Mathematical view of an [`Element`]: the same tag and payload, with the
/// children as arena positions.
pub struct Node<P> {
    /// The tag of the element.
    pub type_id: TypeId,
    /// The payload of the element.
    pub props: P,
    /// The arena positions of the children, in the order of insertion.
    pub children: Seq<nat>,
}

impl<P> View for Element<P> {
    type V = Node<P>;

    open spec fn view(&self) -> Node<P> {
        Node { type_id: self.type_id, props: self.props, children: positions(self.children@) }
    }
}

impl<P> Element<P> {
    /// A childless element that carries `props` and is tagged with the
    /// identifier of `T`.
    pub fn new<T: 'static>(props: P) -> (element: Element<P>)
        ensures
            element.props == props,
            element.children@ == Seq::<ElementId>::empty(),
    {
        Element::with_type_id(TypeId::of::<T>(), props)
    }

    /// A childless element that carries `props` and is tagged with `type_id`.
    pub fn with_type_id(type_id: TypeId, props: P) -> (element: Element<P>)
        ensures
            element.type_id == type_id,
            element.props == props,
            element.children@ == Seq::<ElementId>::empty(),
    {
        Element { type_id, props, children: Vec::new() }
    }
}

} // verus!
