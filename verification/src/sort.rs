//! Sorting the list: what it means for a list to be sorted, the sorted form of
//! a list, and the procedure that computes it.

use vstd::prelude::*;

use crate::item::{item_le, item_order, lemma_item_order_total, Item, ItemView};

verus! {

/// A list is sorted when every item may stand before all that follow it.
pub open spec fn is_sorted(s: Seq<ItemView>) -> bool {
    forall|i: int, j: int| 0 <= i < j < s.len() ==> item_le(#[trigger] s[i], #[trigger] s[j])
}

/// The sorted form of `s`: the same items, in the order of the list.
pub open spec fn sorted(s: Seq<ItemView>) -> Seq<ItemView> {
    s.sort_by(item_order())
}

/// The sorted form of a list is sorted and holds the same items, each as often
/// as the list does.
pub proof fn lemma_sorted_is_sorted(s: Seq<ItemView>)
    ensures
        is_sorted(sorted(s)),
        sorted(s).to_multiset() == s.to_multiset(),
        sorted(s).len() == s.len(),
        forall|x: ItemView| sorted(s).contains(x) <==> s.contains(x),
{
    lemma_item_order_total();
    s.lemma_sort_by_ensures(item_order());
    let r = sorted(s);
    assert forall|i: int, j: int| 0 <= i < j < r.len() implies item_le(
        #[trigger] r[i],
        #[trigger] r[j],
    ) by {
        assert(item_order()(r[i], r[j]));
    }
    vstd::seq_lib::to_multiset_len(s);
    vstd::seq_lib::to_multiset_len(r);
    assert forall|x: ItemView| r.contains(x) <==> s.contains(x) by {
        vstd::seq_lib::to_multiset_contains(s, x);
        vstd::seq_lib::to_multiset_contains(r, x);
    }
}

/// A list has one sorted form only: any sorted list that holds the same items
/// as `s`, each as often, is `sorted(s)`.
pub proof fn lemma_sorted_unique(s: Seq<ItemView>, r: Seq<ItemView>)
    requires
        is_sorted(r),
        r.to_multiset() == s.to_multiset(),
    ensures
        r == sorted(s),
{
    lemma_item_order_total();
    s.lemma_sort_by_ensures(item_order());
    vstd::seq_lib::lemma_sorted_unique(r, sorted(s), item_order());
}

/// Sorting a sorted list changes nothing, so sorting twice is sorting once.
pub proof fn lemma_sorted_idempotent(s: Seq<ItemView>)
    ensures
        is_sorted(s) ==> sorted(s) == s,
        sorted(sorted(s)) == sorted(s),
{
    if is_sorted(s) {
        lemma_sorted_unique(s, s);
    }
    lemma_sorted_is_sorted(s);
    lemma_sorted_unique(sorted(s), sorted(s));
}

/// Lists that hold the same items, each as often, have the same sorted form.
pub proof fn lemma_sorted_of_same_items(s: Seq<ItemView>, t: Seq<ItemView>)
    requires
        s.to_multiset() == t.to_multiset(),
    ensures
        sorted(s) == sorted(t),
{
    lemma_sorted_is_sorted(s);
    lemma_sorted_unique(t, sorted(s));
}

/// An empty list holds no item.
proof fn lemma_empty_holds_nothing(s: Seq<ItemView>)
    requires
        s.len() == 0,
    ensures
        s.to_multiset() == vstd::multiset::Multiset::<ItemView>::empty(),
{
    vstd::seq_lib::to_multiset_len(s);
    vstd::multiset::lemma_multiset_empty_len(s.to_multiset());
    assert(s.to_multiset() =~= vstd::multiset::Multiset::<ItemView>::empty());
}

/// Puts `item` into the sorted list `items`, at the first place where the item
/// that follows may not stand before it.
fn insert_in_order(items: &mut Vec<Item>, item: Item)
    requires
        is_sorted(old(items).deep_view()),
    ensures
        is_sorted(final(items).deep_view()),
        final(items).deep_view().to_multiset() == old(items).deep_view().to_multiset().insert(
            item@,
        ),
{
    let ghost before = items.deep_view();
    let mut place: usize = 0;
    while place < items.len() && items[place].in_order(&item)
        invariant
            items.deep_view() == before,
            place <= items.len(),
            forall|k: int| 0 <= k < place ==> item_le(#[trigger] before[k], item@),
        decreases items.len() - place,
    {
        place += 1;
    }
    items.insert(place, item);
    proof {
        let after = items.deep_view();
        assert(after =~= before.insert(place as int, item@));
        vstd::seq_lib::to_multiset_insert(before, place as int, item@);
        lemma_item_order_total();
        assert forall|i: int, j: int| 0 <= i < j < after.len() implies item_le(
            #[trigger] after[i],
            #[trigger] after[j],
        ) by {
            if j == place {
                assert(after[i] == before[i]);
            } else if i == place {
                assert(after[j] == before[j - 1]);
                assert(!item_le(before[place as int], item@));
                assert(item_order()(item@, before[place as int]) || item_order()(
                    before[place as int],
                    item@,
                ));
                if j - 1 > place {
                    assert(item_le(before[place as int], before[j - 1]));
                    assert(item_order()(item@, before[place as int]) && item_order()(
                        before[place as int],
                        before[j - 1],
                    ));
                }
            } else {
                let bi = if i < place { i } else { i - 1 };
                let bj = if j < place { j } else { j - 1 };
                assert(after[i] == before[bi]);
                assert(after[j] == before[bj]);
            }
        }
    }
}

/// Sorts `items` by tick, unchecked first, and by name within the same tick.
pub fn sort_items(items: &mut Vec<Item>)
    ensures
        final(items).deep_view() == sorted(old(items).deep_view()),
        is_sorted(final(items).deep_view()),
        final(items).deep_view().to_multiset() == old(items).deep_view().to_multiset(),
{
    let ghost all = items.deep_view();
    let mut out: Vec<Item> = Vec::new();
    proof {
        lemma_empty_holds_nothing(out.deep_view());
        assert(out.deep_view().to_multiset().add(all.to_multiset()) =~= all.to_multiset());
    }
    while items.len() > 0
        invariant
            is_sorted(out.deep_view()),
            out.deep_view().to_multiset().add(items.deep_view().to_multiset())
                == all.to_multiset(),
        decreases items.len(),
    {
        let ghost rest = items.deep_view();
        let ghost done = out.deep_view();
        let item = items.pop().unwrap();
        proof {
            assert(rest =~= items.deep_view().push(item@));
            vstd::seq_lib::to_multiset_build(items.deep_view(), item@);
        }
        insert_in_order(&mut out, item);
        proof {
            assert(out.deep_view().to_multiset().add(items.deep_view().to_multiset())
                =~= done.to_multiset().add(rest.to_multiset()));
        }
    }
    proof {
        lemma_empty_holds_nothing(items.deep_view());
        assert(out.deep_view().to_multiset() =~= all.to_multiset());
        lemma_sorted_unique(all, out.deep_view());
    }
    *items = out;
}

} // verus!
