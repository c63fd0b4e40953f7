//! The text of the diagnostic listing: numbers, identifiers, lists and entries.

use crate::element::{positions, ElementId};
use vstd::prelude::*;
use vstd::string::*;

verus! {

/// The decimal digit for `d`, where `d` is below ten.
pub open spec fn digit(d: nat) -> char {
    if d == 0 {
        '0'
    } else if d == 1 {
        '1'
    } else if d == 2 {
        '2'
    } else if d == 3 {
        '3'
    } else if d == 4 {
        '4'
    } else if d == 5 {
        '5'
    } else if d == 6 {
        '6'
    } else if d == 7 {
        '7'
    } else if d == 8 {
        '8'
    } else {
        '9'
    }
}

/// `n` in decimal, without leading zeros.
pub open spec fn decimal(n: nat) -> Seq<char>
    decreases n,
{
    if n < 10 {
        seq![digit(n)]
    } else {
        decimal(n / 10).push(digit(n % 10))
    }
}

/// An identifier as the listing shows it, such as `ElementId(7)`.
pub open spec fn id_text(id: nat) -> Seq<char> {
    "ElementId("@ + decimal(id) + ")"@
}

/// `items` one after the other, with a comma and a space between neighbours.
pub open spec fn joined(items: Seq<Seq<char>>) -> Seq<char>
    decreases items.len(),
{
    if items.len() == 0 {
        Seq::empty()
    } else if items.len() == 1 {
        items[0]
    } else {
        joined(items.drop_last()) + ", "@ + items.last()
    }
}

/// `items` as a list in square brackets.
pub open spec fn list_text(items: Seq<Seq<char>>) -> Seq<char> {
    "["@ + joined(items) + "]"@
}

/// A list of identifiers, such as `[ElementId(1), ElementId(2)]`.
pub open spec fn id_list_text(ids: Seq<nat>) -> Seq<char> {
    list_text(ids.map_values(|id: nat| id_text(id)))
}

/// What the listing shows for a payload whose type the registry does not know.
pub open spec fn placeholder() -> Seq<char> {
    "\"(could not find debug impl)\""@
}

/// The content of a debug form that the registry may have given.
pub open spec fn found_text(found: Option<String>) -> Option<Seq<char>> {
    match found {
        Some(text) => Some(text@),
        None => None,
    }
}

/// What the listing shows for a payload: the debug form that the registry
/// gave, or the placeholder where it gave none.
pub open spec fn debug_form(found: Option<Seq<char>>) -> Seq<char> {
    match found {
        Some(text) => text,
        None => placeholder(),
    }
}

/// The entry of the listing for the element at `index`: the position, the
/// payload's debug form, and the children.
pub open spec fn entry_text(index: nat, found: Option<Seq<char>>, children: Seq<nat>) -> Seq<
    char,
> {
    decimal(index) + ": "@ + debug_form(found) + ", children: "@ + id_list_text(children)
}

/// The digit for `d` as a string.
fn digit_str(d: usize) -> (text: &'static str)
    requires
        d < 10,
    ensures
        text@ == seq![digit(d as nat)],
{
    proof {
        reveal_strlit("0");
        reveal_strlit("1");
        reveal_strlit("2");
        reveal_strlit("3");
        reveal_strlit("4");
        reveal_strlit("5");
        reveal_strlit("6");
        reveal_strlit("7");
        reveal_strlit("8");
        reveal_strlit("9");
    }
    let text = if d == 0 {
        "0"
    } else if d == 1 {
        "1"
    } else if d == 2 {
        "2"
    } else if d == 3 {
        "3"
    } else if d == 4 {
        "4"
    } else if d == 5 {
        "5"
    } else if d == 6 {
        "6"
    } else if d == 7 {
        "7"
    } else if d == 8 {
        "8"
    } else {
        "9"
    };
    assert(text@ =~= seq![digit(d as nat)]);
    text
}

/// Appends `n` in decimal to `out`.
fn append_decimal(out: &mut String, n: usize)
    ensures
        final(out)@ == old(out)@ + decimal(n as nat),
    decreases n,
{
    if n >= 10 {
        append_decimal(out, n / 10);
    }
    out.append(digit_str(n % 10));
    assert(out@ =~= old(out)@ + decimal(n as nat));
}

/// Appends the listing's form of `id` to `out`.
fn append_id(out: &mut String, id: ElementId)
    ensures
        final(out)@ == old(out)@ + id_text(id@),
{
    out.append("ElementId(");
    append_decimal(out, id.index());
    out.append(")");
    assert(out@ =~= old(out)@ + id_text(id@));
}

/// Joining one more item puts it behind the others, after a comma and a space
/// unless it is the first.
pub proof fn lemma_joined_push(items: Seq<Seq<char>>, item: Seq<char>)
    ensures
        joined(items.push(item)) == if items.len() == 0 {
            item
        } else {
            joined(items) + ", "@ + item
        },
{
    assert(items.push(item).drop_last() =~= items);
}

/// Appends the list of `ids` in square brackets to `out`.
pub(crate) fn append_id_list(out: &mut String, ids: &Vec<ElementId>)
    ensures
        final(out)@ == old(out)@ + id_list_text(positions(ids@)),
{
    out.append("[");
    let ghost texts = positions(ids@).map_values(|id: nat| id_text(id));
    let mut i: usize = 0;
    while i < ids.len()
        invariant
            0 <= i <= ids.len(),
            texts == positions(ids@).map_values(|id: nat| id_text(id)),
            out@ == old(out)@ + "["@ + joined(texts.take(i as int)),
        decreases ids.len() - i,
    {
        if i > 0 {
            out.append(", ");
        }
        append_id(out, ids[i]);
        proof {
            lemma_joined_push(texts.take(i as int), texts[i as int]);
            assert(texts.take(i as int).push(texts[i as int]) =~= texts.take(i + 1));
            assert(out@ =~= old(out)@ + "["@ + joined(texts.take(i + 1)));
        }
        i += 1;
    }
    out.append("]");
    proof {
        assert(texts.take(i as int) =~= texts);
        assert(out@ =~= old(out)@ + id_list_text(positions(ids@)));
    }
}

/// The entry of the listing for the element at `index` with these `children`,
/// where the registry gave `found` for its payload.
pub fn entry_line(index: usize, found: Option<String>, children: &Vec<ElementId>) -> (line: String)
    ensures
        line@ == entry_text(index as nat, found_text(found), positions(children@)),
{
    let mut line = String::new();
    append_decimal(&mut line, index);
    line.append(": ");
    match &found {
        Some(text) => line.append(text.as_str()),
        None => line.append("\"(could not find debug impl)\""),
    }
    line.append(", children: ");
    append_id_list(&mut line, children);
    assert(line@ =~= entry_text(index as nat, found_text(found), positions(children@)));
    line
}

} // verus!
