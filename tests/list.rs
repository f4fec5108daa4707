use todo::format::decimal_string;
use todo::item::TodoItem;
use todo::list::{TodoError, TodoList};

fn texts(list: &TodoList) -> Vec<(bool, String)> {
    let mut r = Vec::new();
    for i in 0..list.len() {
        let it = list.get(i).unwrap();
        r.push((it.is_checked(), it.text().to_string()));
    }
    r
}

fn two_items() -> TodoList {
    let mut list = TodoList::new();
    list.add_item("A".to_string(), false);
    list.add_item("B".to_string(), true);
    list
}

#[test]
fn add_to_empty_list_then_render_all() {
    let mut list = TodoList::new();
    list.add_item("Buy milk".to_string(), false);
    assert_eq!(list.render_all(), vec!["0 [ ] - Buy milk".to_string()]);
}

#[test]
fn render_all_twice_gives_the_same_lines() {
    let list = two_items();
    let first = list.render_all();
    let second = list.render_all();
    assert_eq!(first, second);
    assert_eq!(first, vec!["0 [ ] - A".to_string(), "1 [x] - B".to_string()]);
}

#[test]
fn render_all_numbers_past_nine() {
    let mut list = TodoList::new();
    for i in 0..11 {
        list.add_item(format!("t{}", i), false);
    }
    let lines = list.render_all();
    assert_eq!(lines.len(), 11);
    assert_eq!(lines[10], "10 [ ] - t10");
}

#[test]
fn render_all_of_empty_list_is_empty() {
    assert!(TodoList::new().render_all().is_empty());
}

#[test]
fn check_changes_the_marker() {
    let mut list = TodoList::new();
    list.add_item("X".to_string(), false);
    assert_eq!(list.get(0).unwrap().as_string(), "[ ] - X");
    assert_eq!(list.check_item(0), Ok(()));
    assert_eq!(list.get(0).unwrap().as_string(), "[x] - X");
}

#[test]
fn uncheck_changes_the_marker() {
    let mut list = two_items();
    assert_eq!(list.uncheck_item(1), Ok(()));
    assert_eq!(texts(&list), vec![(false, "A".to_string()), (false, "B".to_string())]);
}

#[test]
fn edit_replaces_the_text() {
    let mut list = two_items();
    assert_eq!(list.edit_item(1, "C".to_string()), Ok(()));
    assert_eq!(texts(&list), vec![(false, "A".to_string()), (true, "C".to_string())]);
}

#[test]
fn delete_first_of_two_leaves_the_second_at_zero() {
    let mut list = two_items();
    assert_eq!(list.delete_item(0), Ok(()));
    assert_eq!(list.len(), 1);
    assert_eq!(list.get(0).unwrap().text(), "B");
    assert_eq!(list.render_all(), vec!["0 [x] - B".to_string()]);
}

#[test]
fn check_out_of_range_is_an_index_error() {
    let mut list = two_items();
    assert_eq!(list.check_item(5), Err(TodoError::IndexOutOfRange(5)));
    assert_eq!(texts(&list), vec![(false, "A".to_string()), (true, "B".to_string())]);
}

#[test]
fn other_operations_out_of_range_are_index_errors() {
    let mut list = two_items();
    assert_eq!(list.uncheck_item(2), Err(TodoError::IndexOutOfRange(2)));
    assert_eq!(list.edit_item(2, "Z".to_string()), Err(TodoError::IndexOutOfRange(2)));
    assert_eq!(list.delete_item(7), Err(TodoError::IndexOutOfRange(7)));
    assert_eq!(texts(&list), vec![(false, "A".to_string()), (true, "B".to_string())]);
}

#[test]
fn missing_file_gives_an_empty_list() {
    let list = TodoList::from_file_contents(None).unwrap();
    assert_eq!(list.len(), 0);
}

#[test]
fn file_contents_are_parsed() {
    let list = TodoList::from_file_contents(Some("[x] - Buy milk\n")).unwrap();
    assert_eq!(texts(&list), vec![(true, "Buy milk".to_string())]);
}

#[test]
fn line_without_separator_is_a_malformed_record() {
    let r = TodoList::from_text("[x] - Buy milk\nno separator here\n[ ] - Later\n");
    assert_eq!(r.err(), Some(TodoError::MalformedRecord(1)));
    let r = TodoList::from_file_contents(Some("[ ]-tight\n"));
    assert_eq!(r.err(), Some(TodoError::MalformedRecord(0)));
}

#[test]
fn as_string_writes_one_line_per_item() {
    let mut list = TodoList::new();
    list.add_item("Buy milk".to_string(), true);
    list.add_item("Write report".to_string(), false);
    assert_eq!(list.as_string(), "[x] - Buy milk\n[ ] - Write report\n");
    assert_eq!(TodoList::new().as_string(), "");
}

#[test]
fn save_then_load_gives_the_same_items() {
    let mut list = TodoList::new();
    list.add_item("Buy milk".to_string(), true);
    list.add_item("".to_string(), false);
    list.add_item("a - b - c".to_string(), false);
    list.add_item("[x]".to_string(), true);
    let back = TodoList::from_text(&list.as_string()).unwrap();
    assert_eq!(texts(&back), texts(&list));
}

#[test]
fn parse_reads_markers_and_text() {
    let list = TodoList::from_text("[x] - one\r\n\n[?] - two - more\n[ ] - three").unwrap();
    assert_eq!(
        texts(&list),
        vec![
            (true, "one".to_string()),
            (false, "two - more".to_string()),
            (false, "three".to_string()),
        ]
    );
}

#[test]
fn empty_text_gives_an_empty_list() {
    assert_eq!(TodoList::from_text("").unwrap().len(), 0);
    assert_eq!(TodoList::from_text("\n\n").unwrap().len(), 0);
}

#[test]
fn add_item_from_string_appends_or_refuses() {
    let mut list = TodoList::new();
    assert!(list._add_item_from_string("[x] - done"));
    assert!(!list._add_item_from_string("nothing"));
    assert_eq!(texts(&list), vec![(true, "done".to_string())]);
}

#[test]
fn item_renders_and_changes() {
    let mut it = TodoItem::new("Walk".to_string(), false);
    assert_eq!(it.as_string(), "[ ] - Walk");
    it.set_checked();
    assert_eq!(it.as_string(), "[x] - Walk");
    it.set_text("Run".to_string());
    assert_eq!(it.as_string(), "[x] - Run");
    it.set_unchecked();
    assert_eq!(it.as_string(), "[ ] - Run");
}

#[test]
fn item_from_line() {
    let it = TodoItem::from_line("[x] - a - b").unwrap();
    assert!(it.is_checked());
    assert_eq!(it.text(), "a - b");
    let it = TodoItem::from_line("x - y").unwrap();
    assert!(!it.is_checked());
    assert_eq!(it.text(), "y");
    assert!(TodoItem::from_line("[x]-a").is_none());
}

#[test]
fn decimal_forms() {
    assert_eq!(decimal_string(0), "0");
    assert_eq!(decimal_string(7), "7");
    assert_eq!(decimal_string(10), "10");
    assert_eq!(decimal_string(12345), "12345");
    assert_eq!(decimal_string(usize::MAX), usize::MAX.to_string());
}
