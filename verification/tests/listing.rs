use element_tree::listing::render;
use element_tree::text::entry_line;
use element_tree::{Element, ElementId, Snapshot};
use std::any::{Any, TypeId};

struct Button;

struct Text;

struct Unknown;

type Props = Box<dyn Any>;

type Show = fn(&Props) -> String;

type Lookup = fn(&TypeId) -> Option<Show>;

fn show_width(props: &Props) -> String {
    format!("{:?}", props.downcast_ref::<u32>().unwrap())
}

fn show_content(props: &Props) -> String {
    format!("{:?}", props.downcast_ref::<String>().unwrap())
}

/// A registry that knows `Button`, whose payload is a `u32`, and `Text`, whose
/// payload is a `String`.
fn registry(type_id: &TypeId) -> Option<Show> {
    if *type_id == TypeId::of::<Button>() {
        Some(show_width as Show)
    } else if *type_id == TypeId::of::<Text>() {
        Some(show_content as Show)
    } else {
        None
    }
}

fn tree() -> Snapshot<Props, Lookup> {
    Snapshot::new(registry as Lookup)
}

fn button(width: u32) -> Element<Props> {
    Element::new::<Button>(Box::new(width) as Props)
}

fn text(content: &str) -> Element<Props> {
    Element::new::<Text>(Box::new(content.to_string()) as Props)
}

fn unknown() -> Element<Props> {
    Element::new::<Unknown>(Box::new(()) as Props)
}

/// Identifiers `0 .. count`, issued by a scratch snapshot.
fn ids(count: usize) -> Vec<ElementId> {
    let mut scratch = tree();
    (0..count).map(|_| scratch.insert(unknown())).collect()
}

#[test]
fn entry_line_shows_position_payload_and_children() {
    let all = ids(3);
    let line = entry_line(0, Some("Button".to_string()), &vec![all[1], all[2]]);
    assert_eq!(line, "0: Button, children: [ElementId(1), ElementId(2)]");
}

#[test]
fn entry_line_without_children_shows_an_empty_list() {
    let line = entry_line(7, Some("7".to_string()), &Vec::new());
    assert_eq!(line, "7: 7, children: []");
}

#[test]
fn entry_line_with_one_child_has_no_separator() {
    let all = ids(1);
    let line = entry_line(3, Some("x".to_string()), &all);
    assert_eq!(line, "3: x, children: [ElementId(0)]");
}

#[test]
fn entry_line_without_debug_form_shows_the_placeholder() {
    let all = ids(2);
    let line = entry_line(1, None, &vec![all[1]]);
    assert_eq!(line, "1: \"(could not find debug impl)\", children: [ElementId(1)]");
}

#[test]
fn entry_line_writes_numbers_in_decimal() {
    let all = ids(124);
    assert_eq!(
        entry_line(10, Some(String::new()), &vec![all[9], all[10], all[99], all[100], all[123]]),
        "10: , children: [ElementId(9), ElementId(10), ElementId(99), ElementId(100), ElementId(123)]"
    );
    assert_eq!(entry_line(4294967295, None, &Vec::new()).split(':').next(), Some("4294967295"));
    assert_eq!(entry_line(1000000, None, &Vec::new()).split(':').next(), Some("1000000"));
    assert_eq!(entry_line(9, None, &Vec::new()).split(':').next(), Some("9"));
}

#[test]
fn entry_line_agrees_with_the_debug_form_of_identifiers() {
    let all = ids(12);
    let line = entry_line(0, Some("p".to_string()), &all);
    assert_eq!(line, format!("0: p, children: {:?}", all));
}

#[test]
fn view_tree_lists_every_element_in_order() {
    let mut snapshot = tree();
    let a = snapshot.push(button(40));
    snapshot.insert(text("hello"));
    snapshot.insert(button(2));
    snapshot.pop(a);
    snapshot.insert(text("bye"));
    assert_eq!(
        snapshot.view_tree(),
        vec![
            "0: 40, children: [ElementId(1), ElementId(2)]".to_string(),
            "1: \"hello\", children: []".to_string(),
            "2: 2, children: []".to_string(),
            "3: \"bye\", children: []".to_string(),
        ]
    );
}

#[test]
fn view_tree_of_an_empty_snapshot_is_empty() {
    let snapshot = tree();
    assert_eq!(snapshot.view_tree(), Vec::<String>::new());
}

#[test]
fn unregistered_payload_shows_the_placeholder_and_the_rest_renders() {
    let mut snapshot = tree();
    let a = snapshot.push(button(1));
    let b = snapshot.push(unknown());
    snapshot.insert(text("inner"));
    snapshot.pop(b);
    snapshot.insert(text("sibling"));
    snapshot.pop(a);
    assert_eq!(
        snapshot.view_tree(),
        vec![
            "0: 1, children: [ElementId(1), ElementId(3)]".to_string(),
            "1: \"(could not find debug impl)\", children: [ElementId(2)]".to_string(),
            "2: \"inner\", children: []".to_string(),
            "3: \"sibling\", children: []".to_string(),
        ]
    );
}

#[test]
fn render_of_nothing() {
    assert_eq!(render(&Vec::new(), &Vec::new()), "Snapshot { roots: [], tree: [] }");
}

#[test]
fn render_quotes_each_line() {
    let all = ids(4);
    let lines = vec!["0: a, children: []".to_string(), "3: \"b\\c\"\n".to_string()];
    let text = render(&vec![all[0], all[3]], &lines);
    assert_eq!(
        text,
        "Snapshot { roots: [ElementId(0), ElementId(3)], tree: [\"0: a, children: []\", \"3: \\\"b\\\\c\\\"\\n\"] }"
    );
    assert_eq!(text, format!("Snapshot {{ roots: {:?}, tree: {:?} }}", vec![all[0], all[3]], lines));
}

#[test]
fn debug_string_shows_roots_and_listing() {
    let mut snapshot = tree();
    let a = snapshot.push(button(40));
    snapshot.insert(text("say \"hi\""));
    snapshot.pop(a);
    snapshot.insert(unknown());
    assert_eq!(
        snapshot.debug_string(),
        "Snapshot { roots: [ElementId(0), ElementId(2)], tree: [\"0: 40, children: [ElementId(1)]\", \"1: \\\"say \\\\\\\"hi\\\\\\\"\\\", children: []\", \"2: \\\"(could not find debug impl)\\\", children: []\"] }"
    );
}

#[test]
fn debug_string_of_an_empty_snapshot() {
    let snapshot = tree();
    assert_eq!(snapshot.debug_string(), "Snapshot { roots: [], tree: [] }");
}
