use dew_it_console::model::ViewItem;
use dew_it_console::view::Column;

#[test]
fn view_item_has_name() {
    let name = "::ITEM_NAME::";
    let item = ViewItem::new(name.to_string());
    assert_eq!(item.name, name);
}

#[test]
fn view_item_can_have_sub_items() {
    let mut item1 = ViewItem::new("Item 1".to_string());
    let item2 = ViewItem::new("Item 2".to_string());
    item1.add_sub_item(item2.clone());

    assert_eq!(vec![item2], item1.sub_items)
}

#[test]
fn view_item_equal_if_cloned() {
    let item1 = ViewItem::new("Item 1".to_string());
    let item2 = item1.clone();

    assert_eq!(item1, item2)
}

#[test]
fn view_item_equal_if_id_equal() {
    let id = String::from("::ITEM_2_ID::");
    let text = "Item 1".to_string();
    let item1 = ViewItem::new(text.clone());
    let item2 = ViewItem::with_id(text.clone(), id.clone());
    let item3 = ViewItem::with_id("Other Text".to_string(), id.clone());
    assert_ne!(item1, item2);
    assert_eq!(item2, item3);
}

#[test]
fn view_item_finds_self_by_id() {
    let item = ViewItem::new("::ANY OLD ITEM::".to_string());
    let result = item.find_by_id(&item.id);

    assert_eq!(item, *result.unwrap())
}

#[test]
fn view_item_finds_second_child_by_id() {
    let mut item1 = ViewItem::new("::ANY OLD ITEM::".to_string());
    let child1 = ViewItem::new("::CHILD 1::".to_string());
    let child2 = ViewItem::new("::CHILD 2::".to_string());
    item1.add_sub_item(child1.clone());
    item1.add_sub_item(child2.clone());

    let result = item1.find_by_id(&child2.id);
    assert_eq!(child2, *result.unwrap())
}

#[test]
fn view_item_finds_sub_level_for_self() {
    let item = ViewItem::new("::ANY::".to_string());

    let level = item.find_level(&item);

    assert_eq!(Some(0), level);
}

#[test]
fn view_item_finds_sub_level_none_if_not_there() {
    let item = ViewItem::new("::ANY::".to_string());
    let missing_item = ViewItem::new("::OTHER::".to_string());

    let level = item.find_level(&missing_item);

    assert_eq!(None, level);
}

#[test]
fn view_item_finds_sub_level_for_sub_item() {
    let mut item = ViewItem::new("::ANY::".to_string());
    let mut child = ViewItem::new("::ANY::".to_string());
    let grandchild = ViewItem::new("::ANY::".to_string());

    child.add_sub_item(grandchild.clone());
    item.add_sub_item(child.clone());

    let mut level = item.find_level(&child);

    assert_eq!(Some(1), level);

    level = item.find_level(&grandchild);

    assert_eq!(Some(2), level);

    level = child.find_level(&grandchild);

    assert_eq!(Some(1), level);
}

#[test]
fn can_iterate() {
    let mut item = ViewItem::new("Item 1".to_string());
    let mut child1 = ViewItem::new("Child 1".to_string());
    let child2 = ViewItem::new("Child 2".to_string());
    let grandchild = ViewItem::new("Grandchild".to_string());

    child1.add_sub_item(grandchild.clone());
    item.add_sub_item(child1.clone());
    item.add_sub_item(child2.clone());

    let mut iter = item.iter();

    assert_eq!(Some(&child1), iter.next());
    assert_eq!(Some(&child2), iter.next());
    assert_eq!(None, iter.next());
}

#[test]
fn can_flatten() {
    let mut item = ViewItem::new("Item 1".to_string());
    let mut child1 = ViewItem::new("Child 1".to_string());
    let child2 = ViewItem::new("Child 2".to_string());
    let grandchild = ViewItem::new("Grandchild".to_string());

    child1.add_sub_item(grandchild.clone());
    item.add_sub_item(child1.clone());
    item.add_sub_item(child2.clone());

    let flat_items: Vec<&ViewItem> = item.flatten();

    assert_eq!(vec![&item, &child1, &grandchild, &child2], flat_items);
}

#[test]
fn determines_width_of_tiny_column_to_be_min() {
    let item1 = ViewItem::new("I1".to_string());

    let column_width = item1.find_width(0);

    assert_eq!(Column::MIN_COLUMN_WIDTH, column_width);
}

#[test]
fn determines_width_of_huge_column_to_be_max() {
    let item1 = ViewItem::new(
        "::ITEM WITH A REALLY LONG NAME THAT IS LONGER THAN THE MAX COLUMN WIDTH::".to_string(),
    );

    let column_width = item1.find_width(0);

    assert_eq!(Column::MAX_COLUMN_WIDTH, column_width);
}

#[test]
fn determines_width_to_be_length_plus_padding() {
    let item1 = ViewItem::new("::ITEM WITH MEDIUM LENGTH::".to_string());

    let column_width = item1.find_width(0);

    let expected_width = item1.name.len() + Column::PADDING.len();
    assert_eq!(expected_width, column_width);
}

#[test]
fn determines_width_to_increase_by_indent_per_level() {
    let (item1, _item2, item3) = setup_3_entry_column();
    let column = Column::new(&item1, 0);

    let level = column.find_level(&item3).unwrap();
    let column_width = item3.find_width(level);

    let expected_width = Column::indent(2).len() + item1.name.len() + Column::PADDING.len();
    assert_eq!(expected_width, column_width);
}

fn setup_3_entry_column() -> (ViewItem, ViewItem, ViewItem) {
    let mut item1 = ViewItem::new("::ITEM 1 WITH MEDIUM LENGTH::".to_string());
    let mut item2 = ViewItem::new("::ITEM 2 WITH MEDIUM LENGTH::".to_string());
    let item3 = ViewItem::new("::ITEM 3 WITH MEDIUM LENGTH::".to_string());

    item2.add_sub_item(item3.clone());
    item1.add_sub_item(item2.clone());

    (item1, item2, item3)
}

#[test]
fn height_is_number_of_lines() {
    let item = ViewItem::new("::HAS\nTHREE\nLINES::".to_string());

    assert_eq!(3, item.text_height());
}

#[test]
fn height_is_at_least_one() {
    assert_eq!(1, ViewItem::new("".to_string()).text_height());
    assert_eq!(1, ViewItem::new("one line".to_string()).text_height());
    assert_eq!(1, ViewItem::new("\n".to_string()).text_height());
}

#[test]
fn a_line_break_at_the_end_opens_no_line() {
    assert_eq!(1, ViewItem::new("one\n".to_string()).text_height());
    assert_eq!(2, ViewItem::new("one\ntwo\n".to_string()).text_height());
    assert_eq!(2, ViewItem::new("\n\n".to_string()).text_height());
    assert_eq!(3, ViewItem::new("one\n\nthree".to_string()).text_height());
    assert_eq!(2, ViewItem::new("one\r\ntwo".to_string()).text_height());
}

#[test]
fn new_items_get_distinct_hyphenated_ids() {
    let item1 = ViewItem::new("Item 1".to_string());
    let item2 = ViewItem::new("Item 1".to_string());

    assert_ne!(item1.id, item2.id);
    assert_ne!(item1, item2);
    for id in [&item1.id, &item2.id] {
        assert_eq!(36, id.len());
        for (place, c) in id.chars().enumerate() {
            if place == 8 || place == 13 || place == 18 || place == 23 {
                assert_eq!('-', c);
            } else {
                assert!(c.is_ascii_digit() || ('a'..='f').contains(&c));
            }
        }
        assert_eq!(Some('4'), id.chars().nth(14));
        assert!(matches!(id.chars().nth(19), Some('8' | '9' | 'a' | 'b')));
    }
    assert!(item1.sub_items.is_empty());
}

#[test]
fn with_id_keeps_name_and_id() {
    let item = ViewItem::with_id("label".to_string(), "id-1".to_string());

    assert_eq!("label", item.name);
    assert_eq!("id-1", item.id);
    assert!(item.sub_items.is_empty());
}

#[test]
fn equality_ignores_name_and_children() {
    let mut item1 = ViewItem::with_id("one".to_string(), "same".to_string());
    let item2 = ViewItem::with_id("two".to_string(), "same".to_string());
    item1.add_sub_item(ViewItem::with_id("child".to_string(), "child".to_string()));
    let other = ViewItem::with_id("one".to_string(), "other".to_string());

    assert_eq!(item1, item2);
    assert_eq!(item2, item1);
    assert_ne!(item1, other);
}

#[test]
fn clone_copies_the_whole_subtree() {
    let mut item = ViewItem::with_id("Item".to_string(), "1".to_string());
    let mut child = ViewItem::with_id("Child".to_string(), "2".to_string());
    child.add_sub_item(ViewItem::with_id("Grandchild".to_string(), "3".to_string()));
    item.add_sub_item(child);

    let copy = item.clone();

    assert_eq!(item, copy);
    assert_eq!("Item", copy.name);
    assert_eq!(1, copy.sub_items.len());
    assert_eq!("Child", copy.sub_items[0].name);
    assert_eq!("2", copy.sub_items[0].id);
    assert_eq!("Grandchild", copy.sub_items[0].sub_items[0].name);
    assert_eq!("3", copy.sub_items[0].sub_items[0].id);
}

#[test]
fn add_sub_item_appends_in_call_order() {
    let mut item = ViewItem::with_id("Item".to_string(), "0".to_string());
    item.add_sub_item(ViewItem::with_id("first".to_string(), "1".to_string()));
    item.add_sub_item(ViewItem::with_id("second".to_string(), "2".to_string()));
    item.add_sub_item(ViewItem::with_id("third".to_string(), "3".to_string()));

    let names: Vec<&str> = item.sub_items.iter().map(|child| child.name.as_str()).collect();

    assert_eq!(vec!["first", "second", "third"], names);
    assert_eq!("Item", item.name);
    assert_eq!("0", item.id);
}

#[test]
fn find_by_id_gives_nothing_for_an_unknown_id() {
    let mut item = ViewItem::with_id("Item".to_string(), "0".to_string());
    item.add_sub_item(ViewItem::with_id("first".to_string(), "1".to_string()));

    assert!(item.find_by_id(&"2".to_string()).is_none());
}

#[test]
fn find_by_id_prefers_the_ancestor_of_two_items_with_one_id() {
    let mut item = ViewItem::with_id("above".to_string(), "x".to_string());
    item.add_sub_item(ViewItem::with_id("below".to_string(), "x".to_string()));

    assert_eq!("above", item.find_by_id(&"x".to_string()).unwrap().name);
}

#[test]
fn find_by_id_walks_in_pre_order() {
    let mut item = ViewItem::with_id("top".to_string(), "0".to_string());
    let mut first = ViewItem::with_id("first".to_string(), "1".to_string());
    first.add_sub_item(ViewItem::with_id("deep".to_string(), "x".to_string()));
    item.add_sub_item(first);
    item.add_sub_item(ViewItem::with_id("shallow".to_string(), "x".to_string()));

    assert_eq!("deep", item.find_by_id(&"x".to_string()).unwrap().name);
    assert_eq!(
        Some(2),
        item.find_level(&ViewItem::with_id("any".to_string(), "x".to_string()))
    );
}

#[test]
fn flatten_starts_with_the_item_and_counts_every_descendant() {
    let mut item = ViewItem::with_id("top".to_string(), "0".to_string());
    let mut first = ViewItem::with_id("first".to_string(), "1".to_string());
    first.add_sub_item(ViewItem::with_id("a".to_string(), "2".to_string()));
    first.add_sub_item(ViewItem::with_id("b".to_string(), "3".to_string()));
    let second = ViewItem::with_id("second".to_string(), "4".to_string());
    item.add_sub_item(first);
    item.add_sub_item(second);

    let flat = item.flatten();
    let below: usize = item.sub_items.iter().map(|child| child.flatten().len()).sum();

    assert_eq!("top", flat[0].name);
    assert_eq!(1 + below, flat.len());
    let names: Vec<&str> = flat.iter().map(|entry| entry.name.as_str()).collect();
    assert_eq!(vec!["top", "first", "a", "b", "second"], names);
    assert_eq!(1, ViewItem::with_id("leaf".to_string(), "5".to_string()).flatten().len());
}

#[test]
fn find_level_counts_edges_on_the_way_down() {
    let mut item = ViewItem::with_id("top".to_string(), "0".to_string());
    let mut first = ViewItem::with_id("first".to_string(), "1".to_string());
    let mut second = ViewItem::with_id("second".to_string(), "2".to_string());
    let mut third = ViewItem::with_id("third".to_string(), "3".to_string());
    third.add_sub_item(ViewItem::with_id("fourth".to_string(), "4".to_string()));
    second.add_sub_item(third);
    first.add_sub_item(ViewItem::with_id("aside".to_string(), "5".to_string()));
    item.add_sub_item(first);
    item.add_sub_item(second);

    let probe = |id: &str| item.find_level(&ViewItem::with_id("any".to_string(), id.to_string()));

    assert_eq!(Some(0), probe("0"));
    assert_eq!(Some(1), probe("1"));
    assert_eq!(Some(1), probe("2"));
    assert_eq!(Some(2), probe("3"));
    assert_eq!(Some(3), probe("4"));
    assert_eq!(Some(2), probe("5"));
    assert_eq!(None, probe("6"));
}

#[test]
fn width_is_set_to_the_bounds_whatever_the_level() {
    let tiny = ViewItem::new("123456789".to_string());
    let huge = ViewItem::new("1234567890123456789012345678901".to_string());

    assert_eq!(10, tiny.find_width(0));
    assert_eq!(10, tiny.find_width(7));
    assert_eq!(30, huge.find_width(0));
    assert_eq!(30, huge.find_width(7));
}

#[test]
fn width_counts_indent_and_padding_between_the_bounds() {
    let shortest = ViewItem::new("1234567890".to_string());
    let longest = ViewItem::new("123456789012345678901234567890".to_string());

    assert_eq!(13, shortest.find_width(0));
    assert_eq!(16, shortest.find_width(1));
    assert_eq!(19, shortest.find_width(2));
    assert_eq!(33, longest.find_width(0));
    assert_eq!(42, longest.find_width(3));
}

#[test]
fn width_counts_characters() {
    let item = ViewItem::new("ääääääääää".to_string());

    assert_eq!(13, item.find_width(0));
}

#[test]
fn height_within_compares_the_longest_way_down() {
    let mut item = ViewItem::with_id("top".to_string(), "0".to_string());
    let mut first = ViewItem::with_id("first".to_string(), "1".to_string());
    first.add_sub_item(ViewItem::with_id("deep".to_string(), "2".to_string()));
    item.add_sub_item(ViewItem::with_id("flat".to_string(), "3".to_string()));
    item.add_sub_item(first);

    assert!(!item.height_within(0));
    assert!(!item.height_within(1));
    assert!(item.height_within(2));
    assert!(item.height_within(usize::MAX));
    assert!(ViewItem::with_id("leaf".to_string(), "4".to_string()).height_within(0));
}

#[test]
fn iter_of_a_leaf_is_empty() {
    let item = ViewItem::with_id("leaf".to_string(), "0".to_string());

    assert_eq!(None, item.iter().next());
}

#[test]
fn height_counts_lines_as_the_standard_library_does() {
    let labels = [
        "one", "one\n", "\n", "\n\n", "a\nb", "a\nb\n", "a\r\nb", "a\rb", "\na", "a\n\n\nb\n",
        "::HAS\nTHREE\nLINES::",
    ];

    for label in labels {
        let item = ViewItem::new(label.to_string());
        assert_eq!(label.lines().count(), item.text_height());
    }
}

#[test]
fn searches_give_the_items_of_the_tree_themselves() {
    let mut item = ViewItem::with_id("top".to_string(), "0".to_string());
    let mut first = ViewItem::with_id("first".to_string(), "1".to_string());
    first.add_sub_item(ViewItem::with_id("deep".to_string(), "2".to_string()));
    item.add_sub_item(first);
    item.add_sub_item(ViewItem::with_id("second".to_string(), "3".to_string()));

    let found = item.find_by_id(&"2".to_string()).unwrap();
    let flat = item.flatten();
    let children: Vec<&ViewItem> = item.iter().collect();

    assert!(std::ptr::eq(found, &item.sub_items[0].sub_items[0]));
    assert!(std::ptr::eq(flat[0], &item));
    assert!(std::ptr::eq(flat[1], &item.sub_items[0]));
    assert!(std::ptr::eq(flat[2], &item.sub_items[0].sub_items[0]));
    assert!(std::ptr::eq(flat[3], &item.sub_items[1]));
    assert_eq!(2, children.len());
    assert!(std::ptr::eq(children[0], &item.sub_items[0]));
    assert!(std::ptr::eq(children[1], &item.sub_items[1]));
}
