use item_store::item::Item;
use item_store::sort::sort_items;
use item_store::text::{chars_of, text_le, trim, trim_range};

const SAMPLES: [&str; 16] = [
    "",
    " ",
    "   ",
    "a",
    " a",
    "a ",
    "  a b  ",
    "\t\n x \r\n",
    "\u{a0}wide\u{2003}",
    "\u{3000}",
    "no space",
    " \u{e9}t\u{e9} ",
    "x\u{200b}",
    "  \u{1f600}  ",
    "Milk",
    "  multiple   inner   spaces  ",
];

#[test]
fn trim_strips_white_space_from_both_ends() {
    assert_eq!(trim("  Milk  "), "Milk");
    assert_eq!(trim("Milk"), "Milk");
    assert_eq!(trim("\tBrown sugar\n"), "Brown sugar");
    assert_eq!(trim("   "), "");
    assert_eq!(trim(""), "");
    assert_eq!(trim(" a b "), "a b");
}

#[test]
fn trim_agrees_with_the_standard_library() {
    for sample in SAMPLES {
        assert_eq!(trim(sample), sample.trim());
    }
}

#[test]
fn trim_range_drops_the_flagged_ends() {
    assert_eq!(trim_range(&vec![]), (0, 0));
    assert_eq!(trim_range(&vec![false]), (0, 1));
    assert_eq!(trim_range(&vec![true]), (1, 1));
    assert_eq!(trim_range(&vec![true, true, true]), (3, 3));
    assert_eq!(trim_range(&vec![true, false, true]), (1, 2));
    assert_eq!(trim_range(&vec![false, true, false]), (0, 3));
    assert_eq!(trim_range(&vec![true, true, false, true, false, true]), (2, 5));
    assert_eq!(trim_range(&vec![false, false, true, true]), (0, 2));
    assert_eq!(trim_range(&vec![true, true, false, false]), (2, 4));
}

#[test]
fn chars_of_lists_the_characters() {
    assert_eq!(chars_of(""), Vec::<char>::new());
    assert_eq!(chars_of("abc"), vec!['a', 'b', 'c']);
    assert_eq!(chars_of("\u{e9}t\u{e9}"), vec!['\u{e9}', 't', '\u{e9}']);
}

#[test]
fn text_le_is_the_lexicographic_order() {
    assert!(text_le("", ""));
    assert!(text_le("", "a"));
    assert!(!text_le("a", ""));
    assert!(text_le("a", "a"));
    assert!(text_le("a", "b"));
    assert!(!text_le("b", "a"));
    assert!(text_le("a", "ab"));
    assert!(!text_le("ab", "a"));
    assert!(text_le("ab", "b"));
    assert!(text_le("B", "a"));
    assert!(!text_le("a", "B"));
    assert!(text_le("z", "\u{e9}"));
}

#[test]
fn text_le_agrees_with_the_standard_library() {
    let samples = [
        "", "a", "A", "ab", "abc", "abd", "b", "Milk", "milk", "\u{e9}", "e\u{301}", "\u{1f600}",
        "\u{ffff}", "\u{10000}", "z", "~", " ",
    ];
    for a in samples {
        for b in samples {
            assert_eq!(text_le(a, b), a <= b);
        }
    }
}

#[test]
fn in_order_goes_by_tick_then_name() {
    let a = Item::new("a", false);
    let b = Item::new("b", false);
    let a_done = Item::new("a", true);
    let b_done = Item::new("b", true);
    assert!(a.in_order(&b));
    assert!(!b.in_order(&a));
    assert!(a.in_order(&a));
    assert!(b.in_order(&a_done));
    assert!(!a_done.in_order(&b));
    assert!(a_done.in_order(&b_done));
    assert!(!b_done.in_order(&a_done));
}

#[test]
fn sort_items_agrees_with_the_standard_library() {
    let names = ["pear", "Fig", "apple", "", "fig", "\u{e9}clair", "apple", "b", "a", "ab"];
    let mut items: Vec<Item> = Vec::new();
    for (i, name) in names.iter().enumerate() {
        items.push(Item::new(name, i % 3 == 0));
    }
    let mut expected: Vec<(bool, String)> =
        items.iter().map(|i| (i.checked, i.name.clone())).collect();
    expected.sort();
    sort_items(&mut items);
    let got: Vec<(bool, String)> = items.iter().map(|i| (i.checked, i.name.clone())).collect();
    assert_eq!(got, expected);
}

#[test]
fn sort_items_sorts_by_tick_then_name() {
    let mut items = vec![
        Item::new("b", true),
        Item::new("c", false),
        Item::new("a", true),
        Item::new("a", false),
    ];
    sort_items(&mut items);
    assert_eq!(
        items,
        vec![
            Item::new("a", false),
            Item::new("c", false),
            Item::new("a", true),
            Item::new("b", true),
        ]
    );
    let mut empty: Vec<Item> = Vec::new();
    sort_items(&mut empty);
    assert!(empty.is_empty());
}

#[test]
fn items_are_equal_by_name_and_tick() {
    assert_eq!(Item::new("a", false), Item::new("a", false));
    assert_ne!(Item::new("a", false), Item::new("a", true));
    assert_ne!(Item::new("a", false), Item::new("A", false));
    let item = Item::new("Milk", true);
    assert_eq!(item.clone(), item);
    assert_eq!(item.name, "Milk");
    assert!(item.checked);
}

fn texts_up_to(alphabet: &[char], len: usize) -> Vec<String> {
    let mut all = vec![String::new()];
    let mut last = vec![String::new()];
    for _ in 0..len {
        let mut next = Vec::new();
        for text in &last {
            for c in alphabet {
                let mut longer = text.clone();
                longer.push(*c);
                next.push(longer);
            }
        }
        all.extend(next.iter().cloned());
        last = next;
    }
    all
}

#[test]
fn trim_agrees_on_every_short_text() {
    let alphabet = [' ', '\t', '\u{a0}', '\u{3000}', 'a', '\u{e9}', '\u{200b}'];
    for text in texts_up_to(&alphabet, 4) {
        assert_eq!(trim(&text), text.trim());
    }
}

#[test]
fn trim_drops_a_white_space_character_and_keeps_any_other() {
    for code in 0..=0x2_0000u32 {
        if let Some(c) = char::from_u32(code) {
            let text = c.to_string();
            let expected = if c.is_whitespace() { "" } else { text.as_str() };
            assert_eq!(trim(&text), expected);
        }
    }
}

#[test]
fn text_le_agrees_on_every_short_text() {
    let alphabet = ['A', 'a', 'b', '\u{e9}', '\u{1f600}'];
    let texts = texts_up_to(&alphabet, 3);
    for a in &texts {
        for b in &texts {
            assert_eq!(text_le(a, b), a <= b);
        }
    }
}

#[test]
fn sort_items_agrees_on_every_short_list() {
    let pool = [("a", false), ("a", true), ("B", false), ("b", true), ("", false)];
    let mut picks = vec![Vec::<usize>::new()];
    let mut last = vec![Vec::<usize>::new()];
    for _ in 0..4 {
        let mut next = Vec::new();
        for pick in &last {
            for i in 0..pool.len() {
                let mut longer = pick.clone();
                longer.push(i);
                next.push(longer);
            }
        }
        picks.extend(next.iter().cloned());
        last = next;
    }
    for pick in picks {
        let mut items: Vec<Item> = pick.iter().map(|i| Item::new(pool[*i].0, pool[*i].1)).collect();
        let mut expected: Vec<(bool, String)> =
            items.iter().map(|i| (i.checked, i.name.clone())).collect();
        expected.sort();
        sort_items(&mut items);
        let got: Vec<(bool, String)> =
            items.iter().map(|i| (i.checked, i.name.clone())).collect();
        assert_eq!(got, expected);
    }
}
