use tui_components::keys::{keys_match, matches_any, Key, KeyEvent, KeyModifiers, KeySpec};
use tui_components::dropdown::Dropdown;
use tui_components::text::{bounded_title, truncate_cells};

#[test]
fn a_binding_matches_only_its_own_modifiers() {
    let binding = KeySpec::key_with_modifiers(Key::Char('x'), KeyModifiers::control());
    assert!(binding.matches(KeyEvent::new(Key::Char('x'), KeyModifiers::control())));
    assert!(!binding.matches(KeyEvent::plain(Key::Char('x'))));
    assert!(!binding.matches(KeyEvent::new(Key::Char('x'), KeyModifiers::shift())));
}

#[test]
fn any_of_several_bindings_matches() {
    let bindings = [KeySpec::key(Key::Down), KeySpec::plain('j')];
    assert!(matches_any(&bindings, KeyEvent::plain(Key::Down)));
    assert!(matches_any(&bindings, KeyEvent::plain(Key::Char('j'))));
    assert!(!matches_any(&bindings, KeyEvent::plain(Key::Up)));
    assert!(!matches_any(&[], KeyEvent::plain(Key::Up)));
}

#[test]
fn hotkeys_match_letters_without_regard_to_case() {
    assert!(keys_match(KeyEvent::plain(Key::Char('d')), KeyEvent::plain(Key::Char('D'))));
    assert!(!keys_match(KeyEvent::plain(Key::Char('d')), KeyEvent::plain(Key::Char('e'))));
    assert!(!keys_match(
        KeyEvent::plain(Key::Char('d')),
        KeyEvent::new(Key::Char('d'), KeyModifiers::control())
    ));
    assert!(keys_match(KeyEvent::plain(Key::Enter), KeyEvent::plain(Key::Enter)));
}

#[test]
fn field_width_counts_the_terminal_cells_of_the_choice() {
    let names = |name: &str| vec![name.to_string()];
    // a bordered field is its text plus a border cell on each side
    assert_eq!(Dropdown::single(vec![1], names("abc")).selected_one(1).measured_field_width(0, 0, 0), 5);
    assert_eq!(Dropdown::single(vec![1], names("界")).selected_one(1).measured_field_width(0, 0, 0), 4);
    assert_eq!(Dropdown::single(vec![1], names("")).selected_one(1).measured_field_width(0, 0, 0), 2);
}

#[test]
fn truncation_stops_before_a_wide_character_that_does_not_fit() {
    assert_eq!(truncate_cells("abcdef", 3), "abc");
    assert_eq!(truncate_cells("a界b", 2), "a");
    assert_eq!(truncate_cells("a界b", 3), "a界");
    assert_eq!(truncate_cells("abc", 10), "abc");
    assert_eq!(truncate_cells("abc", 0), "");
}

#[test]
fn titles_get_a_space_on_each_side_and_fit_the_width() {
    assert_eq!(bounded_title("Name", 10), " Name ");
    assert_eq!(bounded_title("Name", 4), " Nam");
    assert_eq!(bounded_title("Name", 0), "");
}

#[test]
fn selection_counts_are_written_in_decimal() {
    let many = |count: u64| {
        let ids = (0..count).collect::<Vec<_>>();
        let names = ids.iter().map(|id| id.to_string()).collect::<Vec<_>>();
        Dropdown::multi(ids.clone(), names).selected(ids)
    };
    assert_eq!(many(3).selected_summary(), "3 selected");
    assert_eq!(many(120).selected_summary(), "120 selected");
}
