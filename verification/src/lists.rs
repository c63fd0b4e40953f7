//! Lists of arena positions, and what flattening a sequence of such lists keeps.

use vstd::prelude::*;
use vstd::seq_lib::*;

verus! {

/// A sequence of positions that grows strictly from entry to entry.
pub open spec fn ascending(s: Seq<nat>) -> bool {
    forall|i: int, j: int| 0 <= i < j < s.len() ==> s[i] < s[j]
}

/// Every entry of `s` lies in `[low, high)`.
pub open spec fn within(s: Seq<nat>, low: nat, high: nat) -> bool {
    forall|k: int| 0 <= k < s.len() ==> low <= #[trigger] s[k] < high
}

/// The positions `0, 1, .., n - 1`.
pub open spec fn positions_below(n: nat) -> Seq<nat> {
    Seq::new(n, |k: int| k as nat)
}

/// `s` is not empty and `x` is its last entry.
pub open spec fn ends_with(s: Seq<nat>, x: nat) -> bool {
    s.len() > 0 && s.last() == x
}

/// The sequence `0, 1, .., n - 1` holds each position below `n` once and no
/// other position.
pub(crate) proof fn lemma_count_of_range(n: nat)
    ensures
        forall|i: nat|
            #[trigger] positions_below(n).to_multiset().count(i) == if i < n {
                1nat
            } else {
                0nat
            },
    decreases n,
{
    broadcast use group_to_multiset_ensures;
    let range = positions_below(n);
    if n == 0 {
        assert forall|i: nat| #[trigger] range.to_multiset().count(i) == 0 by {
            assert(!range.contains(i));
        }
    } else {
        let shorter = positions_below((n - 1) as nat);
        lemma_count_of_range((n - 1) as nat);
        assert(range =~= shorter.push((n - 1) as nat));
        assert forall|i: nat|
            #[trigger] range.to_multiset().count(i) == if i < n {
                1nat
            } else {
                0nat
            } by {
            assert(shorter.to_multiset().count(i) == if i < n - 1 {
                1nat
            } else {
                0nat
            });
        }
    }
}

/// What one of the lists holds, the flattened sequence holds.
pub(crate) proof fn lemma_flatten_holds(lists: Seq<Seq<nat>>, at: int, x: nat)
    requires
        0 <= at < lists.len(),
        lists[at].contains(x),
    ensures
        lists.flatten().contains(x),
{
    lemma_flatten_update(lists, at, lists[at]);
    let before = lists.subrange(0, at).flatten();
    let k = choose|k: int| 0 <= k < lists[at].len() && lists[at][k] == x;
    assert(lists.flatten()[before.len() + k] == x);
}

/// What the flattened sequence holds, one of the lists holds.
pub(crate) proof fn lemma_flatten_found(lists: Seq<Seq<nat>>, x: nat)
    requires
        lists.flatten().contains(x),
    ensures
        exists|at: int| 0 <= at < lists.len() && lists[at].contains(x),
    decreases lists.len(),
{
    if lists.len() > 0 {
        let rest = lists.drop_first();
        let k = choose|k: int| 0 <= k < lists.flatten().len() && lists.flatten()[k] == x;
        if k < lists.first().len() {
            assert(lists[0][k] == x);
            assert(lists[0].contains(x));
        } else {
            assert(rest.flatten()[k - lists.first().len()] == x);
            lemma_flatten_found(rest, x);
            let at = choose|at: int| 0 <= at < rest.len() && rest[at].contains(x);
            assert(lists[at + 1] == rest[at]);
        }
    }
}

/// What two of the lists hold, the flattened sequence holds at least twice.
pub(crate) proof fn lemma_flatten_holds_twice(lists: Seq<Seq<nat>>, first: int, second: int, x: nat)
    requires
        0 <= first < second < lists.len(),
        lists[first].contains(x),
        lists[second].contains(x),
    ensures
        lists.flatten().to_multiset().count(x) >= 2,
{
    broadcast use {group_to_multiset_ensures, lemma_multiset_commutative};
    lemma_flatten_update(lists, first, lists[first]);
    let before = lists.subrange(0, first).flatten();
    let after = lists.subrange(first + 1, lists.len() as int);
    assert(after[second - first - 1] == lists[second]);
    lemma_flatten_holds(after, second - first - 1, x);
    assert(lists.flatten() =~= (before + lists[first]) + after.flatten());
}

/// Replacing one list of a sequence of lists replaces its stretch of the
/// flattened sequence and leaves the stretches before and after it alone.
pub(crate) proof fn lemma_flatten_update(lists: Seq<Seq<nat>>, at: int, list: Seq<nat>)
    requires
        0 <= at < lists.len(),
    ensures
        lists.flatten() =~= lists.subrange(0, at).flatten() + lists[at] + lists.subrange(
            at + 1,
            lists.len() as int,
        ).flatten(),
        lists.update(at, list).flatten() =~= lists.subrange(0, at).flatten() + list
            + lists.subrange(at + 1, lists.len() as int).flatten(),
{
    let before = lists.subrange(0, at);
    let after = lists.subrange(at + 1, lists.len() as int);
    broadcast use Seq::lemma_flatten_singleton;
    assert(lists =~= before + seq![lists[at]] + after);
    assert(lists.update(at, list) =~= before + seq![list] + after);
    lemma_flatten_concat(before, seq![lists[at]]);
    lemma_flatten_concat(before + seq![lists[at]], after);
    lemma_flatten_concat(before, seq![list]);
    lemma_flatten_concat(before + seq![list], after);
    assert(seq![lists[at]].flatten() == lists[at]);
    assert(seq![list].flatten() == list);
}

} // verus!
