use tui_components::keys::{Key, KeyEvent};
use tui_components::list::{List, ListOutcome, NavigationKeys};

fn items(names: &[&str]) -> Vec<String> {
    names.iter().map(|name| name.to_string()).collect()
}

#[test]
fn navigation_clamps_to_items() {
    let mut list = List::new(items(&["one", "two"]));

    assert_eq!(list.selected_index(), 0);
    assert_eq!(list.previous(), ListOutcome::handled());
    assert_eq!(list.selected_index(), 0);
    assert_eq!(list.last(), ListOutcome::changed());
    assert_eq!(list.next(), ListOutcome::handled());
    assert_eq!(list.selected_index(), 1);
}

#[test]
fn empty_list_has_no_selected_item() {
    let list = List::new(Vec::new()).selected(10);

    assert_eq!(list.selected_index(), 0);
    assert_eq!(list.selected_item(), None);
}

#[test]
fn navigation_scrolls_selection_into_view() {
    let mut list = List::new(items(&["one", "two", "three"]));
    let keys = NavigationKeys::arrows();
    let height = 2;

    let outcome = list.on_key(KeyEvent::plain(Key::Down), height, &keys);
    assert_eq!(outcome, ListOutcome::changed());
    assert_eq!(list.scroll_target_offset(), 0);

    let outcome = list.on_key(KeyEvent::plain(Key::Down), height, &keys);
    assert_eq!(outcome, ListOutcome::changed());
    assert_eq!(list.scroll_target_offset(), 1);
}

#[test]
fn handled_key_stops_propagation() {
    let mut list = List::new(items(&["one", "two"]));

    let outcome = list.on_key(KeyEvent::plain(Key::Down), 10, &NavigationKeys::arrows());

    assert!(outcome.handled);
}

#[test]
fn unbound_keys_leave_the_list_alone() {
    let mut list = List::new(items(&["one", "two"]));

    let outcome = list.on_key(KeyEvent::plain(Key::Char('x')), 10, &NavigationKeys::arrows());

    assert_eq!(outcome, ListOutcome::idle());
    assert_eq!(list.selected_index(), 0);
}

#[test]
fn paging_moves_one_row_less_than_the_viewport() {
    let names = (0..10).map(|n| n.to_string()).collect::<Vec<_>>();
    let mut list = List::new(names);
    let keys = NavigationKeys::arrows();

    list.on_key(KeyEvent::plain(Key::PageDown), 4, &keys);
    assert_eq!(list.selected_index(), 3);
    list.on_key(KeyEvent::plain(Key::End), 4, &keys);
    assert_eq!(list.selected_index(), 9);
    assert_eq!(list.scroll_target_offset(), 6);
    list.on_key(KeyEvent::plain(Key::PageUp), 4, &keys);
    assert_eq!(list.selected_index(), 6);
    list.on_key(KeyEvent::plain(Key::Home), 4, &keys);
    assert_eq!(list.selected_index(), 0);
    assert_eq!(list.scroll_target_offset(), 0);
}

#[test]
fn visible_offset_never_leaves_the_viewport_past_the_last_item() {
    let names = (0..5).map(|n| n.to_string()).collect::<Vec<_>>();
    let mut list = List::new(names);
    list.select_index_in_view(4, 2);
    assert_eq!(list.scroll_target_offset(), 3);
    assert_eq!(list.visible_offset(10), 0);
    assert_eq!(list.visible_offset(2), 3);
}

#[test]
fn visible_window_shows_the_scrolled_rows_and_the_selected_one() {
    let mut list = List::new(items(&["a", "b", "c", "d", "e"]));
    assert_eq!(list.visible_window(3), (0, 3, Some(0)));

    list.select_index_in_view(4, 3);
    assert_eq!(list.visible_window(3), (2, 3, Some(2)));
    assert_eq!(list.visible_window(10), (0, 5, Some(4)));
    assert_eq!(List::new(Vec::new()).visible_window(3), (0, 0, None));
}

#[test]
fn default_list_is_empty() {
    let list = List::default();
    assert!(list.items().is_empty());
    assert_eq!(list.selected_index(), 0);
    assert_eq!(list.selected_item(), None);
}
