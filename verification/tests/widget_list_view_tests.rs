use totp_cli::tui::widgets::{LineItem, ListView};

#[test]
fn _initialiation_of_list_view_correct_state() {
    let list_view: ListView<i32> = ListView::new(vec![
        LineItem::new("First", 1),
        LineItem::new("Second", 2),
        LineItem::new("Third", 3),
    ]);

    // Checks that the initial line items are not being modified on initialization.
    assert_eq!(list_view.line_items[0].text, "First");
    assert_eq!(list_view.line_items[0].value, 1);
    assert_eq!(list_view.line_items[1].text, "Second");
    assert_eq!(list_view.line_items[1].value, 2);
    assert_eq!(list_view.line_items[2].text, "Third");
    assert_eq!(list_view.line_items[2].value, 3);

    // Make sure that the initial current_index is of value 0.
    assert_eq!(list_view.current_index, 0);
}

#[test]
fn can_set_new_line_items() {
    let mut list_view = ListView::new(vec![
        LineItem::new("First", 1),
        LineItem::new("Second", 2),
        LineItem::new("Third", 3),
    ]);

    list_view.set_line_items(vec![
        LineItem::new("NewFirst", 11),
        LineItem::new("NewSecond", 22),
        LineItem::new("NewThird", 33),
    ]);

    // Asserts that the list items has been updated to the new values.
    assert_eq!(list_view.line_items[0].text, "NewFirst");
    assert_eq!(list_view.line_items[0].value, 11);
    assert_eq!(list_view.line_items[1].text, "NewSecond");
    assert_eq!(list_view.line_items[1].value, 22);
    assert_eq!(list_view.line_items[2].text, "NewThird");
    assert_eq!(list_view.line_items[2].value, 33);
}

#[test]
fn can_select_next() {
    let mut list_view = ListView::new(vec![
        LineItem::new("First", 1),
        LineItem::new("Second", 2),
        LineItem::new("Third", 3),
    ]);

    list_view.select_next();

    // The selected index was incremented once, meaning the current index
    // should be 1.
    assert_eq!(list_view.current_index, 1);
}

#[test]
fn can_select_previous() {
    let mut list_view = ListView::new(vec![
        LineItem::new("First", 1),
        LineItem::new("Second", 2),
        LineItem::new("Third", 3),
    ]);

    // Increase the selected item multiple times to make sure,
    // so we can make sure that the selected index has changed.
    list_view.select_next();
    list_view.select_next();

    // Select the previos index.
    list_view.select_prev();

    // The selected index was incremented two times, and decrement one,
    // meaning that the current index should be 1.
    assert_eq!(list_view.current_index, 1);
}

#[test]
fn when_at_the_end_of_index_do_not_increment_on_select_next() {
    let mut list_view = ListView::new(vec![
        LineItem::new("First", 1),
        LineItem::new("Second", 2),
        LineItem::new("Third", 3),
    ]);

    // Increment until we are at the end of the list.
    list_view.select_next();
    list_view.select_next();
    list_view.select_next();

    // Increment once more.
    list_view.select_next();

    // Assert that we are still at the end of the list.
    assert_eq!(list_view.current_index, 2);
}

#[test]
fn when_at_the_start_of_the_list_do_not_decrement_on_select_prev() {
    let mut list_view = ListView::new(vec![
        LineItem::new("First", 1),
        LineItem::new("Second", 2),
        LineItem::new("Third", 3),
    ]);

    // Select previous to validate that the selected index do not decrement.
    list_view.select_prev();

    // Assert that we are still at the end of the list.
    assert_eq!(list_view.current_index, 0);
}

#[test]
fn can_mark_the_selected_line_item() {
    let mut list_view = ListView::new(vec![
        LineItem::new("First", 1),
        LineItem::new("Second", 2),
        LineItem::new("Third", 3),
    ]);

    list_view.mark_selected_line_item();

    // Makes sure that the item has been marked.
    assert!(list_view.get_selected_line_item().is_marked());

    // Make sure that other items are not marked.
    // Only one item in the list be marked at a time.
    assert!(!list_view.line_items[1].is_marked());
    assert!(!list_view.line_items[2].is_marked());
}

#[test]
fn can_unmark_the_selected_line_item() {
    let mut list_view = ListView::new(vec![
        LineItem::new("First", 1),
        LineItem::new("Second", 2),
        LineItem::new("Third", 3),
    ]);

    // We mark so that we can assert that it has been unmarked after.
    list_view.mark_selected_line_item();

    // Makes sure that the item has been marked.
    assert!(list_view.get_selected_line_item().is_marked());

    // Unmark all items.
    list_view.unmark_all_line_items();

    // Assert that all lines items has been unmarked.
    for line_item in list_view.line_items {
        assert!(!line_item.is_marked());
    }
}

#[test]
fn next_then_prev_returns_to_the_same_line() {
    let mut list_view = ListView::new(vec![
        LineItem::new("First", 1),
        LineItem::new("Second", 2),
        LineItem::new("Third", 3),
    ]);
    list_view.select_next();
    list_view.select_prev();
    assert_eq!(list_view.current_index, 0);
    list_view.select_next();
    list_view.select_next();
    list_view.select_prev();
    list_view.select_next();
    assert_eq!(list_view.current_index, 2);
}

#[test]
fn marking_moves_with_the_selection() {
    let mut list_view = ListView::new(vec![
        LineItem::new("First", 'a'),
        LineItem::new("Second", 'b'),
    ]);
    list_view.mark_selected_line_item();
    list_view.select_next();
    list_view.mark_selected_line_item();
    assert!(!list_view.line_items[0].is_marked());
    assert!(list_view.line_items[1].is_marked());
    assert_eq!(list_view.get_selected_line_item().text(), "Second");
    assert_eq!(*list_view.get_selected_line_item().value(), 'b');
}

#[test]
fn empty_list_stays_at_zero() {
    let mut list_view: ListView<u8> = ListView::new(vec![]);
    list_view.select_next();
    list_view.select_prev();
    assert_eq!(list_view.current_index, 0);
}

#[test]
fn line_item_mark_and_unmark() {
    let mut item = LineItem::new("x", 5u8);
    assert!(!item.is_marked());
    item.mark();
    assert!(item.is_marked());
    item.unmark();
    assert!(!item.is_marked());
    assert_eq!(item.text(), "x");
    assert_eq!(*item.value(), 5);
}
