use presenterm::list::{indexed_items, ListItem, ListItemType, ListIterator};
use presenterm::text::WeightedLine;

fn item(depth: u8, contents: &str) -> ListItem {
    ListItem { depth, contents: WeightedLine::from_str(contents), item_type: ListItemType::Unordered }
}

fn indexes(mut iter: ListIterator) -> Vec<usize> {
    let mut out = Vec::new();
    while let Some(item) = iter.next() {
        out.push(item.index);
    }
    out
}

fn nested_list() -> Vec<ListItem> {
    vec![
        item(0, "0"),
        item(0, "1"),
        item(1, "00"),
        item(1, "01"),
        item(1, "02"),
        item(2, "001"),
        item(0, "2"),
    ]
}

#[test]
fn list_iterate_list() {
    let iter = ListIterator::new(nested_list(), 0);
    let expected_indexes = [0, 1, 0, 1, 2, 0, 2];
    assert_eq!(indexes(iter), expected_indexes);
}

#[test]
fn list_iterate_list_starting_from_other() {
    let list = ListIterator::new(vec![item(0, "0"), item(0, "1")], 3);
    let expected_indexes = [3, 4];
    assert_eq!(indexes(list), expected_indexes);
}

#[test]
fn builder_iterate_list() {
    let iter = ListIterator::new(nested_list(), 0);
    let expected_indexes = [0, 1, 0, 1, 2, 0, 2];
    assert_eq!(indexes(iter), expected_indexes);
}

#[test]
fn builder_iterate_list_starting_from_other() {
    let list = ListIterator::new(vec![item(0, "0"), item(0, "1")], 3);
    let expected_indexes = [3, 4];
    assert_eq!(indexes(list), expected_indexes);
}

#[test]
fn collect_all_keeps_order_and_contents() {
    let mut iter = ListIterator::new(nested_list(), 0);
    let items = iter.collect_all();
    let contents: Vec<String> = items.iter().map(|i| i.item.contents.chunks[0].content.clone()).collect();
    assert_eq!(contents, vec!["0", "1", "00", "01", "02", "001", "2"]);
    assert!(iter.next().is_none());
}

#[test]
fn returning_to_a_shallower_level_resumes_its_numbering() {
    let items = vec![item(0, "a"), item(1, "b"), item(2, "c"), item(0, "d")];
    assert_eq!(indexes(ListIterator::new(items, 5)), vec![5, 0, 0, 6]);
}

#[test]
fn indexed_items_count_within_each_level() {
    let items = vec![item(0, "a"), item(1, "b"), item(1, "c"), item(2, "d"), item(1, "e"), item(0, "f"), item(1, "g")];
    let indexed = indexed_items(items, 3);
    let indexes: Vec<usize> = indexed.iter().map(|i| i.index).collect();
    assert_eq!(indexes, vec![3, 0, 1, 0, 2, 4, 0]);
    let depths: Vec<u8> = indexed.iter().map(|i| i.item.depth).collect();
    assert_eq!(depths, vec![0, 1, 1, 2, 1, 0, 1]);
}
