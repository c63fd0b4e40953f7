use element_tree::{Element, ElementId, Snapshot, StackViolation};
use std::any::TypeId;
use std::collections::HashMap;

struct Panel;

struct Label;

type Show = fn(&&'static str) -> String;

type Lookup = fn(&TypeId) -> Option<Show>;

type Tree = Snapshot<&'static str, Lookup>;

fn no_registry(_type_id: &TypeId) -> Option<Show> {
    None
}

fn empty_tree() -> Tree {
    Snapshot::new(no_registry as Lookup)
}

fn panel(name: &'static str) -> Element<&'static str> {
    Element::new::<Panel>(name)
}

fn label(name: &'static str) -> Element<&'static str> {
    Element::new::<Label>(name)
}

/// Every position that a root list or a child list names, in the order of the lists.
fn all_links(tree: &Tree) -> Vec<usize> {
    let mut links: Vec<usize> = tree.roots.iter().map(|id| id.index()).collect();
    for element in &tree.tree {
        links.extend(element.children.iter().map(|id| id.index()));
    }
    links
}

fn sample(tree: &mut Tree) -> Vec<ElementId> {
    let a = tree.push(panel("a"));
    let b = tree.push(panel("b"));
    let c = tree.insert(label("c"));
    tree.pop(b);
    let d = tree.insert(label("d"));
    tree.pop(a);
    let e = tree.push(panel("e"));
    let f = tree.insert(label("f"));
    tree.pop(e);
    let g = tree.insert(label("g"));
    vec![a, b, c, d, e, f, g]
}

#[test]
fn new_snapshot_is_empty() {
    let tree = empty_tree();
    assert!(tree.tree.is_empty());
    assert!(tree.roots.is_empty());
    assert!(tree.stack.is_empty());
}

#[test]
fn new_element_has_tag_payload_and_no_children() {
    let element = Element::new::<Panel>(17u8);
    assert_eq!(element.type_id, TypeId::of::<Panel>());
    assert_ne!(element.type_id, TypeId::of::<Label>());
    assert_eq!(element.props, 17u8);
    assert!(element.children.is_empty());
}

#[test]
fn element_with_type_id_keeps_the_tag() {
    let element = Element::with_type_id(TypeId::of::<Label>(), "text");
    assert_eq!(element.type_id, TypeId::of::<Label>());
    assert_eq!(element.props, "text");
    assert!(element.children.is_empty());
}

#[test]
fn nested_build_links_parents_and_children() {
    let mut tree = empty_tree();
    let a = tree.push(panel("A"));
    let b = tree.push(panel("B"));
    tree.pop(b);
    let c = tree.insert(label("C"));
    tree.pop(a);
    let d = tree.insert(label("D"));
    assert_eq!(tree.roots, vec![a, d]);
    assert_eq!(tree.get(a).unwrap().children, vec![b, c]);
    assert_eq!(tree.get(b).unwrap().children, Vec::<ElementId>::new());
    assert_eq!(tree.get(c).unwrap().children, Vec::<ElementId>::new());
    assert_eq!(tree.get(d).unwrap().children, Vec::<ElementId>::new());
    assert!(tree.stack.is_empty());
    assert_eq!(tree.tree.len(), 4);
}

#[test]
fn insert_without_open_element_makes_a_root() {
    let mut tree = empty_tree();
    let a = tree.insert(label("a"));
    let b = tree.insert(label("b"));
    assert_eq!(tree.roots, vec![a, b]);
    assert!(tree.stack.is_empty());
    assert!(tree.get(a).unwrap().children.is_empty());
}

#[test]
fn push_opens_the_element() {
    let mut tree = empty_tree();
    let a = tree.push(panel("a"));
    assert_eq!(tree.stack, vec![a]);
    let b = tree.push(panel("b"));
    assert_eq!(tree.stack, vec![a, b]);
    let c = tree.insert(label("c"));
    assert_eq!(tree.stack, vec![a, b]);
    assert_eq!(tree.get(b).unwrap().children, vec![c]);
    assert_eq!(tree.get(a).unwrap().children, vec![b]);
    tree.pop(b);
    assert_eq!(tree.stack, vec![a]);
    tree.pop(a);
    assert!(tree.stack.is_empty());
    assert_eq!(tree.roots, vec![a]);
}

#[test]
fn identifiers_are_issued_in_increasing_order() {
    let mut tree = empty_tree();
    let ids = sample(&mut tree);
    for pair in ids.windows(2) {
        assert!(pair[0] < pair[1]);
        assert_ne!(pair[0], pair[1]);
    }
    for (position, id) in ids.iter().enumerate() {
        assert_eq!(id.index(), position);
    }
}

#[test]
fn links_hold_every_position_once() {
    let mut tree = empty_tree();
    sample(&mut tree);
    let mut links = all_links(&tree);
    assert_eq!(links.len(), tree.tree.len());
    links.sort();
    assert_eq!(links, (0..tree.tree.len()).collect::<Vec<usize>>());
    assert_eq!(all_links(&tree), vec![0, 4, 6, 1, 3, 2, 5]);
}

#[test]
fn children_come_after_their_parent() {
    let mut tree = empty_tree();
    sample(&mut tree);
    for (position, element) in tree.tree.iter().enumerate() {
        for child in &element.children {
            assert!(child.index() > position);
            assert!(child.index() < tree.tree.len());
        }
    }
}

#[test]
fn get_returns_the_inserted_element() {
    let mut tree = empty_tree();
    let a = tree.push(panel("first"));
    let b = tree.insert(label("second"));
    assert_eq!(tree.get(a).unwrap().props, "first");
    assert_eq!(tree.get(a).unwrap().type_id, TypeId::of::<Panel>());
    assert_eq!(tree.get(b).unwrap().props, "second");
    assert_eq!(tree.get(b).unwrap().type_id, TypeId::of::<Label>());
    tree.pop(a);
    let c = tree.insert(label("third"));
    assert_eq!(tree.get(a).unwrap().props, "first");
    assert_eq!(tree.get(b).unwrap().props, "second");
    assert_eq!(tree.get(c).unwrap().props, "third");
}

#[test]
fn get_of_a_stale_identifier_is_none() {
    let mut tree = empty_tree();
    let a = tree.insert(label("a"));
    let b = tree.insert(label("b"));
    assert!(tree.get(b).is_some());
    tree.clear();
    assert!(tree.get(a).is_none());
    assert!(tree.get(b).is_none());
    let again = tree.insert(label("again"));
    assert_eq!(again, a);
    assert_eq!(tree.get(a).unwrap().props, "again");
    assert!(tree.get(b).is_none());
}

#[test]
fn clear_empties_everything() {
    let mut tree = empty_tree();
    sample(&mut tree);
    tree.clear();
    assert!(tree.tree.is_empty());
    assert!(tree.roots.is_empty());
    assert!(tree.stack.is_empty());
    tree.clear();
    assert!(tree.tree.is_empty());
}

#[test]
fn clear_recovers_from_an_aborted_build() {
    let mut tree = empty_tree();
    tree.push(panel("a"));
    tree.push(panel("b"));
    assert_eq!(tree.stack.len(), 2);
    tree.clear();
    assert!(tree.stack.is_empty());
    let root = tree.insert(label("root"));
    assert_eq!(tree.roots, vec![root]);
    assert_eq!(root.index(), 0);
}

#[test]
fn build_after_clear_runs_as_on_a_new_snapshot() {
    let mut fresh = empty_tree();
    let fresh_ids = sample(&mut fresh);

    let mut reused = empty_tree();
    reused.push(panel("x"));
    reused.insert(label("y"));
    reused.clear();
    let reused_ids = sample(&mut reused);

    assert_eq!(fresh_ids, reused_ids);
    assert_eq!(fresh.roots, reused.roots);
    assert_eq!(fresh.stack, reused.stack);
    assert_eq!(fresh.tree.len(), reused.tree.len());
    for (left, right) in fresh.tree.iter().zip(reused.tree.iter()) {
        assert_eq!(left.props, right.props);
        assert_eq!(left.type_id, right.type_id);
        assert_eq!(left.children, right.children);
    }
}

#[test]
fn try_pop_closes_the_innermost_element() {
    let mut tree = empty_tree();
    let a = tree.push(panel("a"));
    let b = tree.push(panel("b"));
    assert_eq!(tree.try_pop(b), Ok(()));
    assert_eq!(tree.stack, vec![a]);
    assert_eq!(tree.try_pop(a), Ok(()));
    assert!(tree.stack.is_empty());
}

#[test]
fn try_pop_on_an_empty_stack_is_a_violation() {
    let mut tree = empty_tree();
    let a = tree.insert(label("a"));
    assert_eq!(tree.try_pop(a), Err(StackViolation::Empty));
    assert_eq!(tree.roots, vec![a]);
    assert!(tree.stack.is_empty());
    assert_eq!(tree.tree.len(), 1);
}

#[test]
fn try_pop_of_the_wrong_element_is_a_violation() {
    let mut tree = empty_tree();
    let a = tree.push(panel("a"));
    let b = tree.push(panel("b"));
    let c = tree.insert(label("c"));
    assert_eq!(tree.try_pop(a), Err(StackViolation::Mismatch { top: b, given: a }));
    assert_eq!(tree.try_pop(c), Err(StackViolation::Mismatch { top: b, given: c }));
    assert_eq!(tree.stack, vec![a, b]);
    assert_eq!(tree.roots, vec![a]);
    assert_eq!(tree.get(a).unwrap().children, vec![b]);
    assert_eq!(tree.get(b).unwrap().children, vec![c]);
    assert_eq!(tree.try_pop(b), Ok(()));
}

#[test]
fn violations_carry_their_diagnostic() {
    let mut tree = empty_tree();
    let a = tree.push(panel("a"));
    let b = tree.insert(label("b"));
    assert_eq!(
        StackViolation::Empty.message(),
        "Cannot pop when there are no elements on the stack."
    );
    assert_eq!(
        StackViolation::Mismatch { top: a, given: b }.message(),
        "Snapshot::pop popped the wrong element!"
    );
}

#[test]
fn identifiers_serve_as_map_keys() {
    let mut tree = empty_tree();
    let ids = sample(&mut tree);
    let mut widths: HashMap<ElementId, u32> = HashMap::new();
    for (position, id) in ids.iter().enumerate() {
        widths.insert(*id, 10 * position as u32);
    }
    assert_eq!(widths.len(), ids.len());
    assert_eq!(widths[&ids[3]], 30);
    let copy = ids[5];
    assert_eq!(widths[&copy], 50);
    assert!(ids[2] < ids[3]);
    assert_eq!(ids.iter().max(), Some(&ids[6]));
}

#[test]
fn identifier_debug_form_shows_the_position() {
    let mut tree = empty_tree();
    let ids = sample(&mut tree);
    assert_eq!(format!("{:?}", ids[0]), "ElementId(0)");
    assert_eq!(format!("{:?}", ids[6]), "ElementId(6)");
}

#[test]
fn deep_and_wide_build_keeps_the_links_in_order() {
    let mut tree = empty_tree();
    let mut open = Vec::new();
    for _ in 0..200 {
        open.push(tree.push(panel("level")));
        tree.insert(label("leaf"));
    }
    assert_eq!(tree.stack, open);
    while let Some(id) = open.pop() {
        tree.insert(label("late"));
        tree.pop(id);
    }
    assert!(tree.stack.is_empty());
    assert_eq!(tree.tree.len(), 600);
    assert_eq!(tree.roots.len(), 1);
    let mut links = all_links(&tree);
    links.sort();
    assert_eq!(links, (0..600).collect::<Vec<usize>>());
    let first = tree.get(tree.roots[0]).unwrap();
    assert_eq!(first.children.iter().map(|id| id.index()).collect::<Vec<usize>>(), vec![1, 2, 599]);
}
