use tui_components::geometry::Rect;
use tui_components::keys::{Key, KeyEvent, KeyModifiers, KeySpec};
use tui_components::menu::{Menu, MenuEvent, MenuItem, MenuKeys};

fn items(names: &[(u64, &str)]) -> Vec<MenuItem> {
    names.iter().map(|(id, label)| MenuItem::new(*id, label.to_string())).collect()
}

#[test]
fn open_popup_dims_background_outside_trigger_and_popup() {
    let mut menu = Menu::new(items(&[(1, "Alpha"), (2, "Beta")]));
    menu.open();
    let bounds = Rect::new(0, 0, 20, 8);
    let trigger = Rect::new(4, 1, 5, 1);
    menu.layout(trigger, bounds);

    let popup = menu.popup_area_for(trigger, bounds);
    assert!(popup.width > 0 && popup.height > 0);
    assert!(popup.x >= bounds.x && popup.right() <= bounds.right());
    assert!(popup.y >= bounds.y && popup.bottom() <= bounds.bottom());
    assert!(!popup.contains(0, 0));
    assert!(!trigger.contains(0, 0));
}

#[test]
fn close_restores_focus_held_before_menu_opened() {
    let mut menu = Menu::new(items(&[(1, "Alpha")]));
    let keys = MenuKeys::standard();
    menu.open();

    let effects = menu.event(MenuEvent::Key(KeyEvent::plain(Key::Esc)), &keys, None);

    assert!(effects.return_focus);
    assert!(!menu.is_open());
}

#[test]
fn enter_with_control_activates_the_highlighted_item_and_closes() {
    let mut menu = Menu::new(items(&[(1, "Alpha"), (2, "Beta")]));
    let keys = MenuKeys::standard();
    menu.open();
    let area = Rect::new(0, 0, 20, 8);

    menu.on_key(KeyEvent::plain(Key::Down), area, &keys, None);
    menu.on_key(KeyEvent::new(Key::Enter, KeyModifiers::control()), area, &keys, None);

    assert_eq!(menu.take_activated(), vec![2]);
    assert!(menu.take_activated().is_empty());
}

#[test]
fn tab_closes_the_menu_and_moves_focus_on() {
    let mut menu = Menu::new(items(&[(1, "Alpha")]));
    let keys = MenuKeys::standard();
    menu.open();

    let effects = menu.event(MenuEvent::Key(KeyEvent::plain(Key::Tab)), &keys, None);

    assert!(effects.handled);
    assert!(!menu.is_open());
}

#[test]
fn keys_are_ignored_while_closed() {
    let mut menu = Menu::new(items(&[(1, "Alpha")]));
    let keys = MenuKeys::standard();

    let effects = menu.event(MenuEvent::Key(KeyEvent::plain(Key::Down)), &keys, None);

    assert!(!effects.handled);
    assert!(!menu.is_open());
}

#[test]
fn default_menu_action_key_is_enter() {
    let keys = tui_components::menu::MenuActionKeys::default();
    assert_eq!(keys.activate, vec![KeySpec::key(Key::Enter)]);
}
