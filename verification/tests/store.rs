use item_store::item::Item;
use item_store::store::{
    add_item, add_keyed, any_checked, clear_checked, delete_item, fold_names, load_items,
    toggle_checked, DuplicateError, Stored,
};

fn item(name: &str, checked: bool) -> Item {
    Item::new(name, checked)
}

fn list(entries: &[(&str, bool)]) -> Vec<Item> {
    entries.iter().map(|(name, checked)| item(name, *checked)).collect()
}

#[test]
fn a_shopping_list_from_start_to_end() {
    let start: Vec<Item> = Vec::new();

    let one = add_item(&start, "Milk").unwrap();
    assert_eq!(one, list(&[("Milk", false)]));

    assert_eq!(add_item(&one, "milk"), Err(DuplicateError));
    assert_eq!(one, list(&[("Milk", false)]));

    let two = toggle_checked(&one, "Milk");
    assert_eq!(two, list(&[("Milk", true)]));

    let three = add_item(&two, "Bread").unwrap();
    assert_eq!(three, list(&[("Bread", false), ("Milk", true)]));

    let four = clear_checked(&three);
    assert_eq!(four, list(&[("Bread", false)]));
}

#[test]
fn add_puts_the_new_item_in_its_place() {
    let items = list(&[("apple", false), ("cherry", false), ("banana", true)]);
    let next = add_item(&items, "blueberry").unwrap();
    assert_eq!(
        next,
        list(&[("apple", false), ("blueberry", false), ("cherry", false), ("banana", true)])
    );
    assert_eq!(items.len() + 1, next.len());
}

#[test]
fn add_keeps_every_item_and_adds_one_unchecked() {
    let items = list(&[("tea", true), ("jam", false)]);
    let next = add_item(&items, "rice").unwrap();
    for old in &items {
        assert!(next.contains(old));
    }
    assert!(next.contains(&item("rice", false)));
    assert_eq!(next.len(), 3);
    assert_eq!(any_checked(&next), any_checked(&items));
}

#[test]
fn add_to_the_empty_list_leaves_nothing_checked() {
    let items: Vec<Item> = Vec::new();
    assert!(!any_checked(&items));
    let next = add_item(&items, "salt").unwrap();
    assert_eq!(next, list(&[("salt", false)]));
    assert!(!any_checked(&next));
}

#[test]
fn add_trims_the_name() {
    let items: Vec<Item> = Vec::new();
    let next = add_item(&items, "  Brown sugar \t\n").unwrap();
    assert_eq!(next, list(&[("Brown sugar", false)]));
}

#[test]
fn add_refuses_any_case_variant() {
    let items = list(&[("Milk", false), ("Bread", true)]);
    for candidate in ["Milk", "milk", "MILK", "mIlK", "  milk  ", "BREAD", "bread"] {
        assert_eq!(add_item(&items, candidate), Err(DuplicateError));
    }
    assert_eq!(items, list(&[("Milk", false), ("Bread", true)]));
}

#[test]
fn add_refuses_case_variants_beyond_ascii() {
    let items = list(&[("Äpfel", false), ("ΣΟΦΟΣ", false)]);
    assert_eq!(add_item(&items, "äpfel"), Err(DuplicateError));
    assert_eq!(add_item(&items, "ÄPFEL"), Err(DuplicateError));
    assert_eq!(add_item(&items, "σοφος"), Err(DuplicateError));
    assert!(add_item(&items, "Apfel").is_ok());
}

#[test]
fn add_of_nothing_changes_nothing() {
    let items = list(&[("b", true), ("a", false)]);
    assert_eq!(add_item(&items, ""), Ok(list(&[("b", true), ("a", false)])));
    assert_eq!(add_item(&items, "   "), Ok(list(&[("b", true), ("a", false)])));
    assert_eq!(add_item(&items, "\t \n"), Ok(list(&[("b", true), ("a", false)])));
    let empty: Vec<Item> = Vec::new();
    assert_eq!(add_item(&empty, ""), Ok(Vec::new()));
    assert_eq!(add_item(&empty, "   "), Ok(Vec::new()));
}

#[test]
fn add_with_the_keys_given() {
    let items = list(&[("Milk", false)]);
    let keys = vec!["milk".to_string()];
    assert_eq!(add_keyed(&items, &keys, "MILK", "milk"), Err(DuplicateError));
    assert_eq!(
        add_keyed(&items, &keys, "Bread", "bread"),
        Ok(list(&[("Bread", false), ("Milk", false)]))
    );
    assert_eq!(add_keyed(&items, &keys, "", "milk"), Ok(list(&[("Milk", false)])));
    // the keys decide, not the names
    assert_eq!(
        add_keyed(&items, &Vec::new(), "Milk", "milk"),
        Ok(list(&[("Milk", false), ("Milk", false)]))
    );
    assert_eq!(add_keyed(&items, &keys, "Bread", "milk"), Err(DuplicateError));
}

#[test]
fn keys_are_the_lowercase_names() {
    let items = list(&[("Milk", false), ("BREAD", true), ("Crème Brûlée", false), ("", false)]);
    assert_eq!(
        fold_names(&items),
        vec![
            "milk".to_string(),
            "bread".to_string(),
            "crème brûlée".to_string(),
            String::new()
        ]
    );
}

#[test]
fn duplicate_error_says_what_happened() {
    assert_eq!(DuplicateError.message(), "item already exists");
    let items = list(&[("Milk", false)]);
    let refused = add_item(&items, "milk").unwrap_err();
    assert_eq!(refused.message(), "item already exists");
}

#[test]
fn toggle_flips_and_moves_the_item() {
    let items = list(&[("apple", false), ("banana", false), ("cherry", false)]);
    let next = toggle_checked(&items, "apple");
    assert_eq!(next, list(&[("banana", false), ("cherry", false), ("apple", true)]));
    let back = toggle_checked(&next, "apple");
    assert_eq!(back, items);
}

#[test]
fn toggle_twice_restores_the_tick() {
    let items = list(&[("a", false), ("c", false), ("b", true), ("d", true)]);
    for name in ["a", "b", "c", "d"] {
        let twice = toggle_checked(&toggle_checked(&items, name), name);
        assert_eq!(twice, items);
    }
}

#[test]
fn toggle_of_an_unknown_name_only_sorts() {
    let items = list(&[("pear", true), ("fig", false), ("kiwi", false)]);
    let next = toggle_checked(&items, "plum");
    assert_eq!(next, list(&[("fig", false), ("kiwi", false), ("pear", true)]));
}

#[test]
fn toggle_matches_the_exact_name_only() {
    let items = list(&[("Milk", false)]);
    assert_eq!(toggle_checked(&items, "milk"), list(&[("Milk", false)]));
    assert_eq!(toggle_checked(&items, " Milk"), list(&[("Milk", false)]));
    assert_eq!(toggle_checked(&items, "Milk"), list(&[("Milk", true)]));
}

#[test]
fn toggle_flips_every_item_of_that_name() {
    let items = list(&[("x", false), ("x", true), ("y", false)]);
    let next = toggle_checked(&items, "x");
    assert_eq!(next, list(&[("x", false), ("y", false), ("x", true)]));
}

#[test]
fn delete_removes_the_item() {
    let items = list(&[("apple", false), ("banana", false), ("cherry", true)]);
    assert_eq!(delete_item(&items, "banana"), list(&[("apple", false), ("cherry", true)]));
    assert_eq!(delete_item(&items, "cherry"), list(&[("apple", false), ("banana", false)]));
}

#[test]
fn delete_of_an_unknown_name_only_sorts() {
    let items = list(&[("b", true), ("c", false), ("a", false)]);
    assert_eq!(delete_item(&items, "z"), list(&[("a", false), ("c", false), ("b", true)]));
    let empty: Vec<Item> = Vec::new();
    assert_eq!(delete_item(&empty, "z"), Vec::new());
}

#[test]
fn delete_matches_the_exact_name_only() {
    let items = list(&[("Milk", false)]);
    assert_eq!(delete_item(&items, "milk"), list(&[("Milk", false)]));
    assert_eq!(delete_item(&items, "MILK"), list(&[("Milk", false)]));
    assert_eq!(delete_item(&items, "Milk"), Vec::new());
}

#[test]
fn delete_removes_every_item_of_that_name() {
    let items = list(&[("x", false), ("y", false), ("x", true)]);
    assert_eq!(delete_item(&items, "x"), list(&[("y", false)]));
}

#[test]
fn clear_removes_the_checked_items() {
    let items = list(&[("a", false), ("b", false), ("c", true), ("d", true)]);
    assert_eq!(clear_checked(&items), list(&[("a", false), ("b", false)]));
    let all = list(&[("c", true), ("d", true)]);
    assert_eq!(clear_checked(&all), Vec::new());
}

#[test]
fn clear_sorts_what_is_left() {
    let items = list(&[("b", false), ("x", true), ("a", false)]);
    assert_eq!(clear_checked(&items), list(&[("a", false), ("b", false)]));
}

#[test]
fn clear_twice_is_clear_once() {
    let items = list(&[("b", false), ("x", true), ("a", false), ("y", true)]);
    let once = clear_checked(&items);
    let twice = clear_checked(&once);
    assert_eq!(twice, once);
}

#[test]
fn any_checked_sees_a_checked_item() {
    assert!(!any_checked(&Vec::new()));
    assert!(!any_checked(&list(&[("a", false), ("b", false)])));
    assert!(any_checked(&list(&[("a", false), ("b", true)])));
    assert!(any_checked(&list(&[("a", true)])));
}

#[test]
fn results_are_sorted_by_tick_then_name() {
    let items = list(&[
        ("pear", true),
        ("Zucchini", false),
        ("apple", true),
        ("fig", false),
        ("Apple", false),
        ("éclair", false),
    ]);
    let expected = list(&[
        ("Apple", false),
        ("Zucchini", false),
        ("fig", false),
        ("éclair", false),
        ("apple", true),
        ("pear", true),
    ]);
    assert_eq!(toggle_checked(&items, "no such item"), expected);
    assert_eq!(delete_item(&items, "no such item"), expected);
}

#[test]
fn a_name_comes_before_the_names_it_starts() {
    let items = list(&[("ab", false), ("a", false), ("abc", false), ("", false)]);
    assert_eq!(
        delete_item(&items, "none"),
        list(&[("", false), ("a", false), ("ab", false), ("abc", false)])
    );
}

#[test]
fn operations_leave_the_given_list_alone() {
    let items = list(&[("b", true), ("a", false)]);
    let _ = add_item(&items, "c");
    let _ = toggle_checked(&items, "a");
    let _ = delete_item(&items, "a");
    let _ = clear_checked(&items);
    assert_eq!(items, list(&[("b", true), ("a", false)]));
}

#[test]
fn load_gives_the_stored_list_or_none() {
    assert_eq!(load_items(Stored::Nothing), Vec::new());
    assert_eq!(load_items(Stored::Unreadable), Vec::new());
    let stored = list(&[("b", true), ("a", false)]);
    assert_eq!(load_items(Stored::List(stored)), list(&[("b", true), ("a", false)]));
    assert_eq!(load_items(Stored::List(Vec::new())), Vec::new());
}

#[test]
fn load_returns_what_an_operation_returned() {
    let start: Vec<Item> = Vec::new();
    let added = add_item(&start, "Milk").unwrap();
    assert_eq!(load_items(Stored::List(added.clone())), added);
    let toggled = toggle_checked(&added, "Milk");
    assert_eq!(load_items(Stored::List(toggled.clone())), toggled);
    let deleted = delete_item(&toggled, "Milk");
    assert_eq!(load_items(Stored::List(deleted.clone())), deleted);
}
