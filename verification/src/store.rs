//! The operations on the list. Each takes the current list and returns the
//! next one; none changes the list it is given.

use vstd::prelude::*;

use crate::item::{Item, ItemView};
use crate::sort::{is_sorted, sort_items, sorted};
use crate::text::{lowercase, to_lowercase, trim, trimmed};

verus! {

/// The one failure of the list: an item of that name is already there.
#[derive(Debug, Clone, Copy, PartialEq, Eq, Structural)]
pub struct DuplicateError;

impl DuplicateError {
    /// The text to show to the user.
    pub fn message(&self) -> (text: &'static str)
        ensures
            text@ == "item already exists"@,
    {
        "item already exists"
    }
}

/// Whether some item of `s` is checked.
pub open spec fn has_checked(s: Seq<ItemView>) -> bool {
    exists|i: int| 0 <= i < s.len() && (#[trigger] s[i]).checked
}

/// Flips the tick of an item named exactly `name` and leaves any other item
/// as it is.
pub open spec fn flip_named(name: Seq<char>) -> spec_fn(ItemView) -> ItemView {
    |x: ItemView|
        if x.name == name {
            ItemView { name: x.name, checked: !x.checked }
        } else {
            x
        }
}

/// `s` with the tick flipped on every item named exactly `name`.
pub open spec fn toggled(s: Seq<ItemView>, name: Seq<char>) -> Seq<ItemView> {
    s.map_values(flip_named(name))
}

/// Holds of the items that are not named exactly `name`.
pub open spec fn not_named(name: Seq<char>) -> spec_fn(ItemView) -> bool {
    |x: ItemView| x.name != name
}

/// Holds of the items that are not checked.
pub open spec fn not_checked() -> spec_fn(ItemView) -> bool {
    |x: ItemView| !x.checked
}

/// The list after a click on the item named `name`.
pub open spec fn toggle_result(s: Seq<ItemView>, name: Seq<char>) -> Seq<ItemView> {
    sorted(toggled(s, name))
}

/// The list after the item named `name` was deleted.
pub open spec fn delete_result(s: Seq<ItemView>, name: Seq<char>) -> Seq<ItemView> {
    sorted(s.filter(not_named(name)))
}

/// The list after the checked items were cleared.
pub open spec fn clear_result(s: Seq<ItemView>) -> Seq<ItemView> {
    sorted(s.filter(not_checked()))
}

/// The key by which an item is told apart from others when one is added: the
/// lowercase form of its name.
pub open spec fn key_of() -> spec_fn(ItemView) -> Seq<char> {
    |x: ItemView| lowercase(x.name)
}

/// The keys of the items of `s`, in the order of the items.
pub open spec fn name_keys(s: Seq<ItemView>) -> Seq<Seq<char>> {
    s.map_values(key_of())
}

/// Whether `s` has an item whose name is `name` but for the case of its letters.
pub open spec fn name_taken(s: Seq<ItemView>, name: Seq<char>) -> bool {
    name_keys(s).contains(lowercase(name))
}

/// No two items of `s` have the same name but for the case of its letters.
pub open spec fn names_apart(s: Seq<ItemView>) -> bool {
    name_keys(s).no_duplicates()
}

/// A list as the operations leave it: every item has a name, no two names are
/// the same but for case, and the items are in order.
pub open spec fn well_formed(s: Seq<ItemView>) -> bool {
    &&& forall|i: int| 0 <= i < s.len() ==> (#[trigger] s[i]).name.len() > 0
    &&& names_apart(s)
    &&& is_sorted(s)
}

/// What adding `name` gives, where `key` is the key of `name` and `keys` are
/// the keys in use: nothing happens for an empty name, a key in use is refused,
/// and otherwise the list gains an unchecked item and is sorted.
pub open spec fn add_keyed_result(
    s: Seq<ItemView>,
    keys: Seq<Seq<char>>,
    name: Seq<char>,
    key: Seq<char>,
) -> Result<Seq<ItemView>, DuplicateError> {
    if name.len() == 0 {
        Ok(s)
    } else if keys.contains(key) {
        Err(DuplicateError)
    } else {
        Ok(sorted(s.push(ItemView { name, checked: false })))
    }
}

/// What adding the text `candidate`, as the user typed it, gives: the text is
/// trimmed, and its key is its lowercase form.
pub open spec fn add_result(s: Seq<ItemView>, candidate: Seq<char>) -> Result<
    Seq<ItemView>,
    DuplicateError,
> {
    add_keyed_result(s, name_keys(s), trimmed(candidate), lowercase(trimmed(candidate)))
}

/// The outcome of an addition as contracts speak of it.
pub open spec fn outcome_view(r: Result<Vec<Item>, DuplicateError>) -> Result<
    Seq<ItemView>,
    DuplicateError,
> {
    match r {
        Ok(list) => Ok(list.deep_view()),
        Err(e) => Err(e),
    }
}

/// What was found where the list is kept between sessions.
#[derive(Debug)]
pub enum Stored {
    /// Nothing was stored.
    Nothing,
    /// What was stored could not be read as a list.
    Unreadable,
    /// A list was stored.
    List(Vec<Item>),
}

/// What a [`Stored`] stands for.
pub enum StoredView {
    Nothing,
    Unreadable,
    List(Seq<ItemView>),
}

impl View for Stored {
    type V = StoredView;

    open spec fn view(&self) -> StoredView {
        match self {
            Stored::Nothing => StoredView::Nothing,
            Stored::Unreadable => StoredView::Unreadable,
            Stored::List(list) => StoredView::List(list.deep_view()),
        }
    }
}

/// The list that is there at the start, given what was found stored: the stored
/// list as it is, or the empty list where nothing was stored or what was stored
/// could not be read.
pub open spec fn load_result(stored: StoredView) -> Seq<ItemView> {
    match stored {
        StoredView::Nothing => Seq::empty(),
        StoredView::Unreadable => Seq::empty(),
        StoredView::List(s) => s,
    }
}

/// A copy of `items`.
fn copy_items(items: &Vec<Item>) -> (copy: Vec<Item>)
    ensures
        copy.deep_view() == items.deep_view(),
{
    let mut copy: Vec<Item> = Vec::new();
    let mut i: usize = 0;
    while i < items.len()
        invariant
            i <= items.len(),
            copy.deep_view() == items.deep_view().take(i as int),
        decreases items.len() - i,
    {
        let ghost before = copy.deep_view();
        let item = items[i].clone();
        copy.push(item);
        proof {
            assert(copy.deep_view() =~= before.push(items.deep_view()[i as int]));
            assert(copy.deep_view() =~= items.deep_view().take(i + 1));
        }
        i += 1;
    }
    proof {
        assert(items.deep_view().take(i as int) =~= items.deep_view());
    }
    copy
}

/// True iff at least one item is checked.
pub fn any_checked(items: &Vec<Item>) -> (found: bool)
    ensures
        found == has_checked(items.deep_view()),
{
    let mut i: usize = 0;
    while i < items.len()
        invariant
            i <= items.len(),
            forall|k: int| 0 <= k < i ==> !(#[trigger] items.deep_view()[k]).checked,
        decreases items.len() - i,
    {
        if items[i].checked {
            assert(items.deep_view()[i as int].checked);
            return true;
        }
        i += 1;
    }
    false
}

/// Flips the tick of every item named exactly `name` and sorts the list. A
/// name that no item has leaves the items as they are.
pub fn toggle_checked(items: &Vec<Item>, name: &str) -> (next: Vec<Item>)
    ensures
        next.deep_view() == toggle_result(items.deep_view(), name@),
        is_sorted(next.deep_view()),
{
    let wanted = name.to_owned();
    let mut next: Vec<Item> = Vec::new();
    let mut i: usize = 0;
    while i < items.len()
        invariant
            i <= items.len(),
            wanted@ == name@,
            next.deep_view() == toggled(items.deep_view(), name@).take(i as int),
        decreases items.len() - i,
    {
        let item = &items[i];
        let hit = item.name == wanted;
        let checked = if hit {
            !item.checked
        } else {
            item.checked
        };
        let ghost before = next.deep_view();
        let flipped = Item { name: item.name.clone(), checked };
        next.push(flipped);
        proof {
            assert(next.deep_view() =~= before.push(flipped@));
            assert(next.deep_view() =~= toggled(items.deep_view(), name@).take(i + 1));
        }
        i += 1;
    }
    proof {
        assert(toggled(items.deep_view(), name@).take(i as int) =~= toggled(
            items.deep_view(),
            name@,
        ));
    }
    sort_items(&mut next);
    next
}

/// Removes every item named exactly `name` and sorts the list. A name that no
/// item has leaves the items as they are.
pub fn delete_item(items: &Vec<Item>, name: &str) -> (next: Vec<Item>)
    ensures
        next.deep_view() == delete_result(items.deep_view(), name@),
        is_sorted(next.deep_view()),
{
    let wanted = name.to_owned();
    let mut next: Vec<Item> = Vec::new();
    let mut i: usize = 0;
    proof {
        reveal(Seq::filter);
        assert(items.deep_view().take(0) =~= Seq::<ItemView>::empty());
    }
    while i < items.len()
        invariant
            i <= items.len(),
            wanted@ == name@,
            next.deep_view() == items.deep_view().take(i as int).filter(not_named(name@)),
        decreases items.len() - i,
    {
        let item = &items[i];
        let ghost before = next.deep_view();
        if item.name != wanted {
            next.push(item.clone());
            proof {
                assert(next.deep_view() =~= before.push(item@));
            }
        }
        proof {
            reveal(Seq::filter);
            let upto = items.deep_view().take(i + 1);
            assert(upto.drop_last() =~= items.deep_view().take(i as int));
            assert(upto.last() == item@);
        }
        i += 1;
    }
    proof {
        assert(items.deep_view().take(i as int) =~= items.deep_view());
    }
    sort_items(&mut next);
    next
}

/// Removes every checked item and sorts the list.
pub fn clear_checked(items: &Vec<Item>) -> (next: Vec<Item>)
    ensures
        next.deep_view() == clear_result(items.deep_view()),
        is_sorted(next.deep_view()),
{
    let mut next: Vec<Item> = Vec::new();
    let mut i: usize = 0;
    proof {
        reveal(Seq::filter);
        assert(items.deep_view().take(0) =~= Seq::<ItemView>::empty());
    }
    while i < items.len()
        invariant
            i <= items.len(),
            next.deep_view() == items.deep_view().take(i as int).filter(not_checked()),
        decreases items.len() - i,
    {
        let item = &items[i];
        let ghost before = next.deep_view();
        if !item.checked {
            next.push(item.clone());
            proof {
                assert(next.deep_view() =~= before.push(item@));
            }
        }
        proof {
            reveal(Seq::filter);
            let upto = items.deep_view().take(i + 1);
            assert(upto.drop_last() =~= items.deep_view().take(i as int));
            assert(upto.last() == item@);
        }
        i += 1;
    }
    proof {
        assert(items.deep_view().take(i as int) =~= items.deep_view());
    }
    sort_items(&mut next);
    next
}

/// The keys of the names of `items`, in the order of the items.
pub fn fold_names(items: &Vec<Item>) -> (keys: Vec<String>)
    ensures
        keys.deep_view() == name_keys(items.deep_view()),
{
    let mut keys: Vec<String> = Vec::new();
    let mut i: usize = 0;
    while i < items.len()
        invariant
            i <= items.len(),
            keys.deep_view() == name_keys(items.deep_view()).take(i as int),
        decreases items.len() - i,
    {
        let ghost before = keys.deep_view();
        let key = to_lowercase(items[i].name.as_str());
        keys.push(key);
        proof {
            assert(keys.deep_view() =~= before.push(key@));
            assert(keys.deep_view() =~= name_keys(items.deep_view()).take(i + 1));
        }
        i += 1;
    }
    proof {
        assert(name_keys(items.deep_view()).take(i as int) =~= name_keys(items.deep_view()));
    }
    keys
}

/// Adds an unchecked item named `name`, where `key` is the key of `name` and
/// `keys` are the keys that are in use. An empty name changes nothing; a key in
/// use is refused; otherwise the item joins the list and the list is sorted.
pub fn add_keyed(items: &Vec<Item>, keys: &Vec<String>, name: &str, key: &str) -> (outcome: Result<
    Vec<Item>,
    DuplicateError,
>)
    ensures
        outcome_view(outcome) == add_keyed_result(
            items.deep_view(),
            keys.deep_view(),
            name@,
            key@,
        ),
        outcome is Err <==> name@.len() > 0 && keys.deep_view().contains(key@),
        name@.len() > 0 ==> match outcome {
            Ok(next) => is_sorted(next.deep_view()),
            Err(_) => true,
        },
{
    if name.is_empty() {
        return Ok(copy_items(items));
    }
    let wanted = key.to_owned();
    let mut i: usize = 0;
    while i < keys.len()
        invariant
            i <= keys.len(),
            name@.len() > 0,
            wanted@ == key@,
            forall|k: int| 0 <= k < i ==> #[trigger] keys.deep_view()[k] != key@,
        decreases keys.len() - i,
    {
        if keys[i] == wanted {
            assert(keys.deep_view()[i as int] == key@);
            return Err(DuplicateError);
        }
        i += 1;
    }
    let mut next = copy_items(items);
    next.push(Item::new(name, false));
    proof {
        assert(next.deep_view() =~= items.deep_view().push(
            ItemView { name: name@, checked: false },
        ));
    }
    sort_items(&mut next);
    Ok(next)
}

/// Adds what the user typed. The text is trimmed; if nothing is left, the list
/// stays as it is and there is no error. If an item has that name, whatever the
/// case of its letters, the addition is refused. Otherwise an unchecked item of
/// that name joins the list, and the list is sorted.
pub fn add_item(items: &Vec<Item>, candidate: &str) -> (outcome: Result<Vec<Item>, DuplicateError>)
    ensures
        outcome_view(outcome) == add_result(items.deep_view(), candidate@),
        outcome is Err <==> trimmed(candidate@).len() > 0 && name_taken(
            items.deep_view(),
            trimmed(candidate@),
        ),
        trimmed(candidate@).len() > 0 ==> match outcome {
            Ok(next) => is_sorted(next.deep_view()),
            Err(_) => true,
        },
{
    let name = trim(candidate);
    if name.is_empty() {
        return Ok(copy_items(items));
    }
    let key = to_lowercase(name);
    let keys = fold_names(items);
    add_keyed(items, &keys, name, key.as_str())
}

/// The list to start with: the stored list as it is, or the empty list where
/// nothing was stored or what was stored could not be read. Neither is an error.
pub fn load_items(stored: Stored) -> (items: Vec<Item>)
    ensures
        items.deep_view() == load_result(stored@),
{
    match stored {
        Stored::List(list) => list,
        _ => {
            let empty: Vec<Item> = Vec::new();
            proof {
                assert(empty.deep_view() =~= Seq::<ItemView>::empty());
            }
            empty
        },
    }
}

} // verus!
