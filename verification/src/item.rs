//! The entries of the list and the order in which they are shown.

use vstd::prelude::*;

use crate::text::{lemma_lex_le_antisymmetric, lemma_lex_le_reflexive, lemma_lex_le_total,
    lemma_lex_le_transitive, lex_le, text_le};

verus! {

/// One entry of the list: a name and whether it is ticked off.
#[derive(Debug)]
pub struct Item {
    pub name: String,
    pub checked: bool,
}

/// What an [`Item`] stands for: its name as a sequence of characters, and the tick.
pub struct ItemView {
    pub name: Seq<char>,
    pub checked: bool,
}

impl View for Item {
    type V = ItemView;

    open spec fn view(&self) -> ItemView {
        ItemView { name: self.name@, checked: self.checked }
    }
}

impl DeepView for Item {
    type V = ItemView;

    open spec fn deep_view(&self) -> ItemView {
        self@
    }
}

impl Clone for Item {
    fn clone(&self) -> (copy: Item)
        ensures
            copy@ == self@,
    {
        Item { name: self.name.clone(), checked: self.checked }
    }
}

impl PartialEq for Item {
    fn eq(&self, other: &Item) -> (same: bool) {
        self.name == other.name && self.checked == other.checked
    }
}

impl vstd::std_specs::cmp::PartialEqSpecImpl for Item {
    open spec fn obeys_eq_spec() -> bool {
        true
    }

    open spec fn eq_spec(&self, other: &Item) -> bool {
        self@ == other@
    }
}

/// The order of the list: unchecked items come before checked ones, and items
/// with the same tick go by their names.
pub open spec fn item_le(a: ItemView, b: ItemView) -> bool {
    if a.checked == b.checked {
        lex_le(a.name, b.name)
    } else {
        !a.checked
    }
}

/// [`item_le`] as a relation, for the sorting vocabulary of `vstd`.
pub open spec fn item_order() -> spec_fn(ItemView, ItemView) -> bool {
    |a: ItemView, b: ItemView| item_le(a, b)
}

/// The order of the list is a total order: any two items are comparable, and
/// only an item with the same name and tick stands level with another.
pub proof fn lemma_item_order_total()
    ensures
        vstd::relations::total_ordering(item_order()),
{
    let r = item_order();
    assert forall|x: ItemView| #[trigger] r(x, x) by {
        lemma_lex_le_reflexive(x.name);
    }
    assert forall|x: ItemView, y: ItemView| #[trigger] r(x, y) && #[trigger] r(y, x) implies x
        == y by {
        lemma_lex_le_antisymmetric(x.name, y.name);
    }
    assert forall|x: ItemView, y: ItemView, z: ItemView| #[trigger]
        r(x, y) && #[trigger] r(y, z) implies r(x, z) by {
        if x.checked == y.checked && y.checked == z.checked {
            lemma_lex_le_transitive(x.name, y.name, z.name);
        }
    }
    assert forall|x: ItemView, y: ItemView| #[trigger] r(x, y) || #[trigger] r(y, x) by {
        lemma_lex_le_total(x.name, y.name);
    }
}

impl Item {
    /// A new item named `name`.
    pub fn new(name: &str, checked: bool) -> (item: Item)
        ensures
            item@ == (ItemView { name: name@, checked }),
    {
        Item { name: name.to_owned(), checked }
    }

    /// Whether `self` may stand before `next` in the order of the list.
    pub fn in_order(&self, next: &Item) -> (le: bool)
        ensures
            le == item_le(self@, next@),
    {
        if self.checked == next.checked {
            text_le(self.name.as_str(), next.name.as_str())
        } else {
            !self.checked
        }
    }
}

} // verus!
