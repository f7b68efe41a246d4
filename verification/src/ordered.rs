//! Sets of strings kept as strictly increasing sequences.

use crate::text::{lemma_lex_irreflexive, lemma_lex_total, lemma_lex_transitive, lex_less, str_less};
use vstd::prelude::*;

verus! {

/// Each item comes before every later one: the items are sorted and none
/// occurs twice.
pub open spec fn strictly_increasing(items: Seq<Seq<char>>) -> bool {
    forall|i: int, j: int|
        0 <= i < j < items.len() ==> lex_less(#[trigger] items[i], #[trigger] items[j])
}

/// The number of items at the start of `items` that come before `item`.
pub open spec fn rank(items: Seq<Seq<char>>, item: Seq<char>) -> int
    decreases items.len(),
{
    if items.len() > 0 && lex_less(items[0], item) {
        1 + rank(items.drop_first(), item)
    } else {
        0
    }
}

/// `items` with `item` put in at its rank, unless it stands there already.
pub open spec fn with_item(items: Seq<Seq<char>>, item: Seq<char>) -> Seq<Seq<char>> {
    let at = rank(items, item);
    if at < items.len() && items[at] == item {
        items
    } else {
        items.insert(at, item)
    }
}

/// The items put one by one into an empty sequence, each at its rank.
pub open spec fn sorted_distinct(items: Seq<Seq<char>>) -> Seq<Seq<char>>
    decreases items.len(),
{
    if items.len() == 0 {
        Seq::empty()
    } else {
        with_item(sorted_distinct(items.drop_last()), items.last())
    }
}

/// The rank of an item splits the sequence: before it stand items that come
/// before the item, and the item at the rank does not.
pub proof fn lemma_rank(items: Seq<Seq<char>>, item: Seq<char>)
    ensures
        0 <= rank(items, item) <= items.len(),
        forall|k: int| 0 <= k < rank(items, item) ==> lex_less(#[trigger] items[k], item),
        rank(items, item) < items.len() ==> !lex_less(items[rank(items, item)], item),
    decreases items.len(),
{
    if items.len() > 0 && lex_less(items[0], item) {
        let rest = items.drop_first();
        lemma_rank(rest, item);
        assert forall|k: int| 0 <= k < rank(items, item) implies lex_less(
            #[trigger] items[k],
            item,
        ) by {
            if k > 0 {
                assert(items[k] == rest[k - 1]);
            }
        }
        if rank(items, item) < items.len() {
            assert(items[rank(items, item)] == rest[rank(rest, item)]);
        }
    }
}

/// Putting an item into a strictly increasing sequence keeps it strictly
/// increasing, and adds the item and nothing else.
pub proof fn lemma_with_item(items: Seq<Seq<char>>, item: Seq<char>)
    requires
        strictly_increasing(items),
    ensures
        strictly_increasing(with_item(items, item)),
        forall|other: Seq<char>|
            with_item(items, item).contains(other) <==> (items.contains(other) || other == item),
{
    lemma_rank(items, item);
    let at = rank(items, item);
    let out = with_item(items, item);
    if at < items.len() && items[at] == item {
        assert forall|other: Seq<char>| out.contains(other) <==> (items.contains(other) || other
            == item) by {
            if other == item {
                assert(items[at] == other);
            }
        }
    } else {
        assert(out.len() == items.len() + 1);
        assert(forall|k: int| 0 <= k < at ==> out[k] == items[k]);
        assert(out[at] == item);
        assert(forall|k: int| at < k < out.len() ==> out[k] == items[k - 1]);
        assert forall|i: int, j: int| 0 <= i < j < out.len() implies lex_less(
            #[trigger] out[i],
            #[trigger] out[j],
        ) by {
            if j < at {
                assert(lex_less(items[i], items[j]));
            } else if j == at {
                assert(lex_less(items[i], item));
            } else if i == at {
                lemma_lex_total(items[at], item);
                if j - 1 > at {
                    assert(lex_less(items[at], items[j - 1]));
                    lemma_lex_transitive(item, items[at], items[j - 1]);
                }
            } else if i < at {
                assert(lex_less(items[i], items[j - 1]));
            } else {
                assert(lex_less(items[i - 1], items[j - 1]));
            }
        }
        assert forall|other: Seq<char>| out.contains(other) <==> (items.contains(other) || other
            == item) by {
            if out.contains(other) {
                let k = choose|k: int| 0 <= k < out.len() && out[k] == other;
                if k < at {
                    assert(items[k] == other);
                } else if k > at {
                    assert(items[k - 1] == other);
                }
            }
            if items.contains(other) {
                let k = choose|k: int| 0 <= k < items.len() && items[k] == other;
                if k < at {
                    assert(out[k] == other);
                } else {
                    assert(out[k + 1] == other);
                }
            }
            if other == item {
                assert(out[at] == other);
            }
        }
    }
}

/// Sorting with duplicates removed: the result is strictly increasing and
/// holds exactly the items that were given.
pub proof fn lemma_sorted_distinct(items: Seq<Seq<char>>)
    ensures
        strictly_increasing(sorted_distinct(items)),
        forall|item: Seq<char>| sorted_distinct(items).contains(item) <==> items.contains(item),
    decreases items.len(),
{
    if items.len() > 0 {
        let before = items.drop_last();
        lemma_sorted_distinct(before);
        lemma_with_item(sorted_distinct(before), items.last());
        assert forall|item: Seq<char>| sorted_distinct(items).contains(item) <==> items.contains(
            item,
        ) by {
            if items.contains(item) {
                let k = choose|k: int| 0 <= k < items.len() && items[k] == item;
                if k < items.len() - 1 {
                    assert(before[k] == item);
                }
            }
            if before.contains(item) {
                let k = choose|k: int| 0 <= k < before.len() && before[k] == item;
                assert(items[k] == item);
            }
            if item == items.last() {
                assert(items[items.len() - 1] == item);
            }
        }
    }
}

/// Two strictly increasing sequences with the same items are the same
/// sequence.
pub proof fn lemma_strictly_increasing_unique(a: Seq<Seq<char>>, b: Seq<Seq<char>>)
    requires
        strictly_increasing(a),
        strictly_increasing(b),
        forall|item: Seq<char>| a.contains(item) <==> b.contains(item),
    ensures
        a == b,
    decreases a.len(),
{
    if a.len() == 0 {
        if b.len() > 0 {
            assert(b.contains(b[0]));
        }
        assert(a =~= b);
    } else if b.len() == 0 {
        assert(a.contains(a[0]));
    } else {
        // The two largest items agree.
        let x = a.last();
        let y = b.last();
        assert(a.contains(x)) by {
            assert(a[a.len() - 1] == x);
        }
        assert(b.contains(y)) by {
            assert(b[b.len() - 1] == y);
        }
        let i = choose|i: int| 0 <= i < b.len() && b[i] == x;
        let j = choose|j: int| 0 <= j < a.len() && a[j] == y;
        lemma_lex_total(x, y);
        lemma_lex_irreflexive(x);
        lemma_lex_irreflexive(y);
        if lex_less(x, y) {
            if j < a.len() - 1 {
                assert(lex_less(a[j], a[a.len() - 1]));
                lemma_lex_transitive(x, y, x);
            }
        }
        if lex_less(y, x) {
            if i < b.len() - 1 {
                assert(lex_less(b[i], b[b.len() - 1]));
                lemma_lex_transitive(y, x, y);
            }
        }
        assert(x == y);
        let a0 = a.drop_last();
        let b0 = b.drop_last();
        assert forall|item: Seq<char>| a0.contains(item) <==> b0.contains(item) by {
            if a0.contains(item) {
                let k = choose|k: int| 0 <= k < a0.len() && a0[k] == item;
                assert(a[k] == item);
                assert(lex_less(a[k], a[a.len() - 1]));
                assert(a.contains(item));
                let m = choose|m: int| 0 <= m < b.len() && b[m] == item;
                if m == b.len() - 1 {
                    lemma_lex_irreflexive(item);
                }
                assert(b0[m] == item);
            }
            if b0.contains(item) {
                let k = choose|k: int| 0 <= k < b0.len() && b0[k] == item;
                assert(b[k] == item);
                assert(lex_less(b[k], b[b.len() - 1]));
                assert(b.contains(item));
                let m = choose|m: int| 0 <= m < a.len() && a[m] == item;
                if m == a.len() - 1 {
                    lemma_lex_irreflexive(item);
                }
                assert(a0[m] == item);
            }
        }
        assert(strictly_increasing(a0)) by {
            assert forall|p: int, q: int| 0 <= p < q < a0.len() implies lex_less(
                #[trigger] a0[p],
                #[trigger] a0[q],
            ) by {
                assert(lex_less(a[p], a[q]));
            }
        }
        assert(strictly_increasing(b0)) by {
            assert forall|p: int, q: int| 0 <= p < q < b0.len() implies lex_less(
                #[trigger] b0[p],
                #[trigger] b0[q],
            ) by {
                assert(lex_less(b[p], b[q]));
            }
        }
        lemma_strictly_increasing_unique(a0, b0);
        assert(a =~= a0.push(x));
        assert(b =~= b0.push(y));
    }
}

/// Puts `item` into `items` at its rank, unless it stands there already.
pub fn insert_sorted(items: &mut Vec<String>, item: String)
    ensures
        final(items).deep_view() == with_item(old(items).deep_view(), item@),
{
    let ghost before = items.deep_view();
    let mut at: usize = 0;
    assert(before.skip(0) =~= before);
    while at < items.len() && str_less(items[at].as_str(), item.as_str())
        invariant
            at <= items.len(),
            items.deep_view() == before,
            rank(before, item@) == at + rank(before.skip(at as int), item@),
        decreases items.len() - at,
    {
        assert(before.skip(at as int).drop_first() =~= before.skip(at + 1));
        at += 1;
    }
    assert(rank(before, item@) == at) by {
        if at < items.len() {
            assert(before.skip(at as int)[0] == before[at as int]);
        }
    }
    if at < items.len() && items[at].as_str().eq(item.as_str()) {
    } else {
        items.insert(at, item);
        assert(items.deep_view() =~= before.insert(at as int, item@));
    }
}

/// The items sorted, each of them once.
pub fn sort_distinct(items: &Vec<String>) -> (sorted: Vec<String>)
    ensures
        sorted.deep_view() == sorted_distinct(items.deep_view()),
{
    let ghost all = items.deep_view();
    let mut sorted: Vec<String> = Vec::new();
    let mut i: usize = 0;
    assert(sorted.deep_view() =~= sorted_distinct(all.take(0)));
    while i < items.len()
        invariant
            i <= items.len(),
            all == items.deep_view(),
            sorted.deep_view() == sorted_distinct(all.take(i as int)),
        decreases items.len() - i,
    {
        proof {
            assert(all.take(i + 1).drop_last() =~= all.take(i as int));
            assert(all.take(i + 1).last() == items@[i as int]@);
        }
        insert_sorted(&mut sorted, items[i].clone());
        i += 1;
    }
    assert(all.take(items@.len() as int) =~= all);
    sorted
}

} // verus!
