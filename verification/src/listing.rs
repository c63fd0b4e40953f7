//! The diagnostic listing of a snapshot: one entry per element, rendered with
//! the help of the registry.

use crate::element::{positions, Element, ElementId, Node};
use crate::snapshot::Snapshot;
use crate::text::{
    append_id_list, entry_line, entry_text, found_text, id_list_text, joined, lemma_joined_push,
    list_text,
};
use std::any::TypeId;
use vstd::prelude::*;
use vstd::string::*;

verus! {

/// What std's `Debug` shows for a string with this content: the content in
/// double quotes, with the characters escaped that std escapes there.
pub uninterp spec fn debug_quoted(text: Seq<char>) -> Seq<char>;

/// Formats `text` with std's `Debug` for `str` (`{:?}`). The contract names the
/// result: it is taken to depend on the content of `text` alone.
#[verifier::external_body]
fn quote(text: &str) -> (quoted: String)
    ensures
        quoted@ == debug_quoted(text@),
{
    format!("{:?}", text)
}

/// The content of each of `lines`.
pub open spec fn contents(lines: Seq<String>) -> Seq<Seq<char>> {
    lines.map_values(|line: String| line@)
}

/// The debug text of a snapshot with these `roots` whose listing is `lines`:
/// the roots as a list of identifiers, then the entries as a list of quoted
/// strings.
pub open spec fn snapshot_text(roots: Seq<nat>, lines: Seq<Seq<char>>) -> Seq<char> {
    "Snapshot { roots: "@ + id_list_text(roots) + ", tree: "@ + list_text(
        lines.map_values(|line: Seq<char>| debug_quoted(line)),
    ) + " }"@
}

/// Renders the debug text of a snapshot from its roots and its listing.
pub fn render(roots: &Vec<ElementId>, lines: &Vec<String>) -> (text: String)
    ensures
        text@ == snapshot_text(positions(roots@), contents(lines@)),
{
    let mut text = String::new();
    text.append("Snapshot { roots: ");
    append_id_list(&mut text, roots);
    text.append(", tree: ");
    text.append("[");
    let ghost head = text@;
    let ghost quoted = contents(lines@).map_values(|line: Seq<char>| debug_quoted(line));
    let mut i: usize = 0;
    while i < lines.len()
        invariant
            0 <= i <= lines.len(),
            quoted == contents(lines@).map_values(|line: Seq<char>| debug_quoted(line)),
            text@ == head + joined(quoted.take(i as int)),
        decreases lines.len() - i,
    {
        if i > 0 {
            text.append(", ");
        }
        let entry = quote(lines[i].as_str());
        text.append(entry.as_str());
        proof {
            lemma_joined_push(quoted.take(i as int), quoted[i as int]);
            assert(quoted.take(i as int).push(quoted[i as int]) =~= quoted.take(i + 1));
            assert(text@ =~= head + joined(quoted.take(i + 1)));
        }
        i += 1;
    }
    text.append("]");
    text.append(" }");
    proof {
        assert(quoted.take(i as int) =~= quoted);
        assert(text@ =~= snapshot_text(positions(roots@), contents(lines@)));
    }
    text
}

impl<P, C: Fn(&P) -> String, R: Fn(&TypeId) -> Option<C>> Snapshot<P, R> {
    /// The registry can be asked about every tag, and what it gives for a tag
    /// can be asked about every payload.
    pub open spec fn registry_answers(&self) -> bool {
        &&& forall|type_id: &TypeId| call_requires(self.registry, (type_id,))
        &&& forall|type_id: &TypeId, debug_props: C, props: &P|
            call_ensures(self.registry, (type_id,), Some(debug_props)) ==> call_requires(
                debug_props,
                (props,),
            )
    }

    /// Whether `found` may be what the registry has for `node`: where the
    /// registry, asked for the node's tag, gives a way to show payloads, the
    /// debug form that this gives for the node's payload; where it gives none,
    /// nothing.
    pub open spec fn may_find(&self, node: Node<P>, found: Option<Seq<char>>) -> bool {
        exists|entry: Option<C>| #[trigger]
            call_ensures(self.registry, (&node.type_id,), entry) && match entry {
                Some(debug_props) => exists|text: String| #[trigger]
                    call_ensures(debug_props, (&node.props,), text) && found == Some(text@),
                None => found is None,
            }
    }

    /// Whether `line` is an entry for the element at position `i`: the text
    /// that `entry_text` gives for the position, for what the registry may
    /// have for the element, and for the element's children.
    pub open spec fn is_entry(&self, i: int, line: Seq<char>) -> bool {
        exists|found: Option<Seq<char>>| #[trigger]
            self.may_find(self@.nodes[i], found) && line == entry_text(
                i as nat,
                found,
                self@.nodes[i].children,
            )
    }

    /// Whether `lines` is a listing of the snapshot: one entry for each
    /// element, in arena order.
    pub open spec fn is_listing(&self, lines: Seq<Seq<char>>) -> bool {
        &&& lines.len() == self@.len()
        &&& forall|i: int| 0 <= i < lines.len() ==> self.is_entry(i, #[trigger] lines[i])
    }

    /// The debug form of the payload of `element`, if the registry has an
    /// entry for the element's tag.
    fn debug_props(&self, element: &Element<P>) -> (found: Option<String>)
        requires
            self.registry_answers(),
        ensures
            self.may_find(element@, found_text(found)),
    {
        let entry = (self.registry)(&element.type_id);
        let ghost given = entry;
        match entry {
            Some(debug_props) => {
                let text = debug_props(&element.props);
                assert(call_ensures(self.registry, (&element@.type_id,), given));
                assert(call_ensures(debug_props, (&element@.props,), text));
                Some(text)
            },
            None => {
                assert(call_ensures(self.registry, (&element@.type_id,), given));
                None
            },
        }
    }

    /// The listing of the snapshot. For each element the registry is asked for
    /// the debug form of the payload; where it has no entry for the element's
    /// tag, the entry shows a placeholder, and the listing goes on.
    pub fn view_tree(&self) -> (lines: Vec<String>)
        requires
            self.registry_answers(),
        ensures
            self.is_listing(contents(lines@)),
    {
        let mut lines: Vec<String> = Vec::new();
        let mut i: usize = 0;
        while i < self.tree.len()
            invariant
                0 <= i <= self.tree@.len(),
                self.registry_answers(),
                lines@.len() == i,
                forall|k: int| 0 <= k < i ==> self.is_entry(k, #[trigger] contents(lines@)[k]),
            decreases self.tree@.len() - i,
        {
            let element = &self.tree[i];
            let found = self.debug_props(element);
            let ghost answer = found_text(found);
            let line = entry_line(i, found, &element.children);
            proof {
                assert(self@.nodes[i as int] == element@);
                assert(self.may_find(self@.nodes[i as int], answer));
                assert(self.is_entry(i as int, line@));
            }
            let ghost earlier = lines@;
            lines.push(line);
            proof {
                assert forall|k: int| 0 <= k < i + 1 implies self.is_entry(
                    k,
                    #[trigger] contents(lines@)[k],
                ) by {
                    if k < i {
                        assert(contents(lines@)[k] == contents(earlier)[k]);
                    }
                }
            }
            i += 1;
        }
        lines
    }

    /// The debug text of the snapshot: its roots, then its listing.
    pub fn debug_string(&self) -> (text: String)
        requires
            self.registry_answers(),
        ensures
            exists|lines: Seq<Seq<char>>|
                #![trigger self.is_listing(lines)]
                self.is_listing(lines) && text@ == snapshot_text(self@.roots, lines),
    {
        let lines = self.view_tree();
        let text = render(&self.roots, &lines);
        assert(self.is_listing(contents(lines@)));
        text
    }
}

} // verus!
