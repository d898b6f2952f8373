//! What holds of the operations on every list: the laws first, then the lemmas
//! that their proofs rest on.

use vstd::prelude::*;
use vstd::seq_lib::{to_multiset_build, to_multiset_contains};

use crate::bag::{lemma_any_same_items, lemma_filter_holds_less, lemma_filter_keeps_all,
    lemma_map_same_items, lemma_no_duplicates_same_items};
use crate::item::{item_le, ItemView};
use crate::sort::{is_sorted, lemma_sorted_idempotent, lemma_sorted_is_sorted,
    lemma_sorted_of_same_items, sorted};
use crate::store::{add_result, clear_result, delete_result, flip_named, has_checked, key_of,
    load_result, name_keys, name_taken, names_apart, not_checked, not_named, toggle_result,
    toggled, well_formed, DuplicateError, StoredView};
use crate::session::{start_result, step_result, IntentView, SessionView};
use crate::text::{is_space, kept_end, kept_start, lemma_blank_trims_to_nothing,
    lemma_kept_range, lemma_leading, lemma_trailing, lex_le, lowercase, space_flags, trimmed};

verus! {

/// Trimming cuts a text at both ends: what is cut off is white space, and what
/// is left neither starts nor ends with white space.
pub proof fn law_trimmed(s: Seq<char>)
    ensures
        exists|from: int, to: int|
            {
                &&& 0 <= from <= to <= s.len()
                &&& trimmed(s) == #[trigger] s.subrange(from, to)
                &&& forall|i: int| 0 <= i < from ==> is_space(#[trigger] s[i])
                &&& forall|i: int| to <= i < s.len() ==> is_space(#[trigger] s[i])
            },
        trimmed(s).len() > 0 ==> !is_space(trimmed(s).first()) && !is_space(trimmed(s).last()),
{
    let flags = space_flags(s);
    lemma_kept_range(flags);
    lemma_leading(flags);
    lemma_trailing(flags);
    let from = kept_start(flags) as int;
    let to = kept_end(flags) as int;
    assert forall|i: int| 0 <= i < from implies is_space(#[trigger] s[i]) by {
        assert(flags[i]);
    }
    assert forall|i: int| to <= i < s.len() implies is_space(#[trigger] s[i]) by {
        assert(flags[i]);
    }
    assert(trimmed(s) == s.subrange(from, to));
}

/// Adding a name that no item has, whatever the case of its letters, succeeds:
/// the list gains one unchecked item of that name, trimmed, and keeps all it
/// had; it is sorted; and whether some item is checked does not change.
pub proof fn law_add_new_name(s: Seq<ItemView>, candidate: Seq<char>)
    requires
        trimmed(candidate).len() > 0,
        !name_taken(s, trimmed(candidate)),
    ensures
        add_result(s, candidate) is Ok,
        add_result(s, candidate)->Ok_0.to_multiset() == s.to_multiset().insert(
            ItemView { name: trimmed(candidate), checked: false },
        ),
        add_result(s, candidate)->Ok_0.len() == s.len() + 1,
        is_sorted(add_result(s, candidate)->Ok_0),
        has_checked(add_result(s, candidate)->Ok_0) == has_checked(s),
{
    let item = ItemView { name: trimmed(candidate), checked: false };
    let grown = s.push(item);
    let next = add_result(s, candidate)->Ok_0;
    assert(next == sorted(grown));
    lemma_sorted_is_sorted(grown);
    to_multiset_build(s, item);
    lemma_has_checked_same_items(grown, next);
    if has_checked(grown) {
        let i = choose|i: int| 0 <= i < grown.len() && (#[trigger] grown[i]).checked;
        assert(s[i].checked);
    }
    if has_checked(s) {
        let i = choose|i: int| 0 <= i < s.len() && (#[trigger] s[i]).checked;
        assert(grown[i].checked);
    }
}

/// Adding a name that an item already has, whatever the case of its letters,
/// is refused.
pub proof fn law_add_taken_name(s: Seq<ItemView>, candidate: Seq<char>)
    requires
        trimmed(candidate).len() > 0,
        name_taken(s, trimmed(candidate)),
    ensures
        add_result(s, candidate) == Err::<Seq<ItemView>, DuplicateError>(DuplicateError),
{
}

/// Adding the empty text, or a text of white space alone, changes nothing and
/// is no error.
pub proof fn law_add_blank(s: Seq<ItemView>, candidate: Seq<char>)
    requires
        forall|i: int| 0 <= i < candidate.len() ==> is_space(#[trigger] candidate[i]),
    ensures
        add_result(s, candidate) == Ok::<Seq<ItemView>, DuplicateError>(s),
{
    lemma_blank_trims_to_nothing(candidate);
}

/// Two clicks on the same name undo each other: every item has its tick back,
/// and a list that was sorted is the same list again.
pub proof fn law_toggle_twice(s: Seq<ItemView>, name: Seq<char>)
    ensures
        toggle_result(toggle_result(s, name), name) == sorted(s),
        toggle_result(toggle_result(s, name), name).to_multiset() == s.to_multiset(),
        is_sorted(s) ==> toggle_result(toggle_result(s, name), name) == s,
{
    let once = toggle_result(s, name);
    lemma_sorted_is_sorted(toggled(s, name));
    lemma_map_same_items(once, toggled(s, name), flip_named(name));
    assert(toggled(toggled(s, name), name) =~= s);
    lemma_sorted_of_same_items(toggled(once, name), s);
    lemma_sorted_is_sorted(s);
    lemma_sorted_idempotent(s);
}

/// A click on a name that no item has, and the deletion of such a name, leave
/// the items as they are and only sort the list.
pub proof fn law_unknown_name_only_sorts(s: Seq<ItemView>, name: Seq<char>)
    requires
        forall|i: int| 0 <= i < s.len() ==> (#[trigger] s[i]).name != name,
    ensures
        toggle_result(s, name) == sorted(s),
        delete_result(s, name) == sorted(s),
{
    assert(toggled(s, name) =~= s);
    assert forall|i: int| 0 <= i < s.len() implies not_named(name)(#[trigger] s[i]) by {
        assert(s[i].name != name);
    }
    lemma_filter_keeps_all(s, not_named(name));
}

/// Once a name is deleted, no item has it, and every item of another name is
/// still there.
pub proof fn law_delete_removes_the_name(s: Seq<ItemView>, name: Seq<char>)
    ensures
        forall|i: int|
            0 <= i < delete_result(s, name).len() ==> (#[trigger] delete_result(s, name)[i]).name
                != name,
        forall|i: int|
            0 <= i < s.len() && (#[trigger] s[i]).name != name ==> delete_result(
                s,
                name,
            ).contains(s[i]),
{
    let kept = s.filter(not_named(name));
    let next = delete_result(s, name);
    lemma_sorted_is_sorted(kept);
    assert forall|i: int| 0 <= i < next.len() implies (#[trigger] next[i]).name != name by {
        assert(next.contains(next[i]));
        lemma_filter_holds_less(s, not_named(name), next[i]);
    }
    assert forall|i: int| 0 <= i < s.len() && (#[trigger] s[i]).name != name implies next.contains(
        s[i],
    ) by {
        assert(not_named(name)(s[i]));
        s.lemma_filter_contains(not_named(name), i);
    }
}

/// Once the checked items are cleared, no item is checked, and clearing a
/// second time changes nothing.
pub proof fn law_clear_twice(s: Seq<ItemView>)
    ensures
        !has_checked(clear_result(s)),
        clear_result(clear_result(s)) == clear_result(s),
{
    let kept = s.filter(not_checked());
    let once = clear_result(s);
    lemma_sorted_is_sorted(kept);
    assert forall|i: int| 0 <= i < once.len() implies not_checked()(#[trigger] once[i]) by {
        assert(once.contains(once[i]));
        to_multiset_contains(once, once[i]);
        to_multiset_contains(kept, once[i]);
        lemma_filter_holds_less(s, not_checked(), once[i]);
    }
    lemma_filter_keeps_all(once, not_checked());
    lemma_sorted_idempotent(kept);
    if has_checked(once) {
        let i = choose|i: int| 0 <= i < once.len() && (#[trigger] once[i]).checked;
        assert(not_checked()(once[i]));
    }
}

/// In a sorted list no checked item stands before an unchecked one, and items
/// with the same tick stand in the lexicographic order of their names.
pub proof fn law_sorted_layout(s: Seq<ItemView>)
    requires
        is_sorted(s),
    ensures
        forall|i: int, j: int|
            0 <= i < j < s.len() && (#[trigger] s[i]).checked ==> (#[trigger] s[j]).checked,
        forall|i: int, j: int|
            0 <= i < j < s.len() && (#[trigger] s[i]).checked == (#[trigger] s[j]).checked
                ==> lex_le(s[i].name, s[j].name),
{
    assert forall|i: int, j: int|
        0 <= i < j < s.len() && (#[trigger] s[i]).checked implies (#[trigger] s[j]).checked by {
        assert(item_le(s[i], s[j]));
    }
    assert forall|i: int, j: int|
        0 <= i < j < s.len() && (#[trigger] s[i]).checked == (#[trigger] s[j]).checked implies lex_le(
        s[i].name,
        s[j].name,
    ) by {
        assert(item_le(s[i], s[j]));
    }
}

/// Every operation that changes the list leaves it sorted.
pub proof fn law_results_sorted(s: Seq<ItemView>, text: Seq<char>)
    ensures
        is_sorted(toggle_result(s, text)),
        is_sorted(delete_result(s, text)),
        is_sorted(clear_result(s)),
        trimmed(text).len() > 0 && add_result(s, text) is Ok ==> is_sorted(
            add_result(s, text)->Ok_0,
        ),
{
    lemma_sorted_is_sorted(toggled(s, text));
    lemma_sorted_is_sorted(s.filter(not_named(text)));
    lemma_sorted_is_sorted(s.filter(not_checked()));
    lemma_sorted_is_sorted(s.push(ItemView { name: trimmed(text), checked: false }));
}

/// Loading gives back the list that was stored, item for item and in the same
/// order, and the empty list where there is none to give back.
pub proof fn law_load_returns_stored(s: Seq<ItemView>)
    ensures
        load_result(StoredView::List(s)) == s,
        load_result(StoredView::Nothing) == Seq::<ItemView>::empty(),
        load_result(StoredView::Unreadable) == Seq::<ItemView>::empty(),
{
}

/// What was stored last is the list of the session: where a step asks for the
/// list to be stored, a session that starts from what was stored has that list,
/// item for item and in the same order; where it does not ask, the list is the
/// one that was there before the step.
pub proof fn law_stored_list_is_current(s: SessionView, intent: IntentView)
    ensures
        step_result(s, intent).persist ==> start_result(
            StoredView::List(step_result(s, intent).session.items),
        ).items == step_result(s, intent).session.items,
        !step_result(s, intent).persist ==> step_result(s, intent).session.items == s.items,
{
}

/// The empty list is well formed, and every operation keeps a well-formed list
/// well formed.
pub proof fn law_well_formed_kept(s: Seq<ItemView>, text: Seq<char>)
    requires
        well_formed(s),
    ensures
        well_formed(Seq::<ItemView>::empty()),
        well_formed(toggle_result(s, text)),
        well_formed(delete_result(s, text)),
        well_formed(clear_result(s)),
        add_result(s, text) is Ok ==> well_formed(add_result(s, text)->Ok_0),
{
    // the empty list
    assert(name_keys(Seq::<ItemView>::empty()) =~= Seq::<Seq<char>>::empty());

    // a click
    let flipped = toggled(s, text);
    assert(name_keys(flipped) =~= name_keys(s));
    lemma_sorted_well_formed(flipped);

    // a deletion, and the clearing of the checked items
    lemma_filter_well_formed(s, not_named(text));
    lemma_filter_well_formed(s, not_checked());

    // an addition
    if add_result(s, text) is Ok && trimmed(text).len() > 0 {
        let item = ItemView { name: trimmed(text), checked: false };
        let grown = s.push(item);
        assert(name_keys(grown) =~= name_keys(s).push(lowercase(trimmed(text))));
        assert forall|i: int, j: int|
            0 <= i < grown.len() && 0 <= j < grown.len() && i != j implies name_keys(grown)[i]
            != name_keys(grown)[j] by {
            if i < s.len() && j < s.len() {
                assert(name_keys(s)[i] != name_keys(s)[j]);
            } else {
                let m = if i < s.len() {
                    i
                } else {
                    j
                };
                assert(name_keys(s).contains(name_keys(s)[m]));
            }
        }
        lemma_sorted_well_formed(grown);
    }
}

/// Holds of the checked items.
pub open spec fn is_checked() -> spec_fn(ItemView) -> bool {
    |x: ItemView| x.checked
}

/// Lists that hold the same items agree on whether one of them is checked.
pub proof fn lemma_has_checked_same_items(s: Seq<ItemView>, r: Seq<ItemView>)
    requires
        s.to_multiset() == r.to_multiset(),
    ensures
        has_checked(s) == has_checked(r),
{
    if has_checked(s) {
        let i = choose|i: int| 0 <= i < s.len() && (#[trigger] s[i]).checked;
        assert(is_checked()(s[i]));
        lemma_any_same_items(s, r, is_checked());
        let j = choose|j: int| 0 <= j < r.len() && is_checked()(#[trigger] r[j]);
        assert(r[j].checked);
    }
    if has_checked(r) {
        let i = choose|i: int| 0 <= i < r.len() && (#[trigger] r[i]).checked;
        assert(is_checked()(r[i]));
        lemma_any_same_items(r, s, is_checked());
        let j = choose|j: int| 0 <= j < s.len() && is_checked()(#[trigger] s[j]);
        assert(s[j].checked);
    }
}

/// Lists that hold the same items agree on whether their names are apart.
pub proof fn lemma_names_apart_same_items(s: Seq<ItemView>, r: Seq<ItemView>)
    requires
        s.to_multiset() == r.to_multiset(),
        names_apart(s),
    ensures
        names_apart(r),
{
    lemma_map_same_items(s, r, key_of());
    lemma_no_duplicates_same_items(name_keys(s), name_keys(r));
}

/// Lists that hold the same items agree on whether every item has a name.
pub proof fn lemma_named_same_items(s: Seq<ItemView>, r: Seq<ItemView>)
    requires
        s.to_multiset() == r.to_multiset(),
        forall|i: int| 0 <= i < s.len() ==> (#[trigger] s[i]).name.len() > 0,
    ensures
        forall|j: int| 0 <= j < r.len() ==> (#[trigger] r[j]).name.len() > 0,
{
    assert forall|j: int| 0 <= j < r.len() implies (#[trigger] r[j]).name.len() > 0 by {
        assert(r.contains(r[j]));
        to_multiset_contains(r, r[j]);
        to_multiset_contains(s, r[j]);
        let i = choose|i: int| 0 <= i < s.len() && s[i] == r[j];
        assert(s[i].name.len() > 0);
    }
}

/// Sorting keeps a list well formed in all that does not concern the order,
/// and puts it in order.
pub proof fn lemma_sorted_well_formed(s: Seq<ItemView>)
    requires
        forall|i: int| 0 <= i < s.len() ==> (#[trigger] s[i]).name.len() > 0,
        names_apart(s),
    ensures
        well_formed(sorted(s)),
{
    lemma_sorted_is_sorted(s);
    lemma_names_apart_same_items(s, sorted(s));
    lemma_named_same_items(s, sorted(s));
}

/// A filter keeps the names of a list apart.
pub proof fn lemma_filter_names_apart(s: Seq<ItemView>, p: spec_fn(ItemView) -> bool)
    requires
        names_apart(s),
    ensures
        names_apart(s.filter(p)),
    decreases s.len(),
{
    reveal(Seq::filter);
    if s.len() > 0 {
        let front = s.drop_last();
        assert forall|i: int, j: int|
            0 <= i < front.len() && 0 <= j < front.len() && i != j implies name_keys(front)[i]
            != name_keys(front)[j] by {
            assert(name_keys(front)[i] == name_keys(s)[i]);
            assert(name_keys(front)[j] == name_keys(s)[j]);
        }
        lemma_filter_names_apart(front, p);
        let kept = front.filter(p);
        if p(s.last()) {
            let all = kept.push(s.last());
            assert forall|i: int, j: int|
                0 <= i < all.len() && 0 <= j < all.len() && i != j implies name_keys(all)[i]
                != name_keys(all)[j] by {
                if i < kept.len() && j < kept.len() {
                    assert(name_keys(kept)[i] != name_keys(kept)[j]);
                } else {
                    let m = if i < kept.len() {
                        i
                    } else {
                        j
                    };
                    assert(kept.contains(kept[m]));
                    lemma_filter_holds_less(front, p, kept[m]);
                    let k = choose|k: int| 0 <= k < front.len() && front[k] == kept[m];
                    assert(name_keys(s)[k] != name_keys(s)[s.len() - 1]);
                }
            }
        }
    }
}

/// What a filter keeps of a well-formed list is well formed once sorted.
proof fn lemma_filter_well_formed(s: Seq<ItemView>, p: spec_fn(ItemView) -> bool)
    requires
        well_formed(s),
    ensures
        well_formed(sorted(s.filter(p))),
{
    let kept = s.filter(p);
    lemma_filter_names_apart(s, p);
    assert forall|i: int| 0 <= i < kept.len() implies (#[trigger] kept[i]).name.len() > 0 by {
        assert(kept.contains(kept[i]));
        lemma_filter_holds_less(s, p, kept[i]);
        let k = choose|k: int| 0 <= k < s.len() && s[k] == kept[i];
        assert(s[k].name.len() > 0);
    }
    lemma_sorted_well_formed(kept);
}

} // verus!
