use tui_components::dropdown::{
    Dropdown, DropdownActionKeys, DropdownCommitMode, DropdownKeys, DropdownOutcome, DropdownPopupDirection,
    DropdownSearchMode, DropdownVariant,
};
use tui_components::geometry::{LayoutSizeHint, Rect};
use tui_components::keys::{Key, KeyEvent, KeyModifiers, KeySpec};

const ALPHA: u64 = 1;
const BETA: u64 = 2;
const GAMMA: u64 = 3;
const LABELS: [&str; 3] = ["Alpha", "Beta", "Gamma"];
const AREA: Rect = Rect { x: 0, y: 0, width: 24, height: 10 };

fn labels(names: &[&str]) -> Vec<String> {
    names.iter().map(|name| name.to_string()).collect()
}

fn single_dropdown() -> Dropdown {
    Dropdown::single(vec![ALPHA, BETA, GAMMA], labels(&LABELS))
}

fn multi_dropdown() -> Dropdown {
    Dropdown::multi(vec![ALPHA, BETA, GAMMA], labels(&LABELS))
}

fn numeric_dropdown(count: u64) -> Dropdown {
    let ids = (0..count).collect::<Vec<_>>();
    let names = ids.iter().map(|id| id.to_string()).collect::<Vec<_>>();
    Dropdown::single(ids, names)
}

fn char_key(value: char) -> KeyEvent {
    KeyEvent::plain(Key::Char(value))
}

fn ctrl(value: char) -> KeyEvent {
    KeyEvent::new(Key::Char(value), KeyModifiers::control())
}

fn press(dropdown: &mut Dropdown, key: KeyEvent) -> DropdownOutcome {
    let page = dropdown.list_area(AREA).height;
    dropdown.on_key(key, page, &DropdownKeys::standard(), None)
}

/// Types `query` into the search field: the rows whose labels hold it, ignoring case, match.
fn search(dropdown: &mut Dropdown, query: &str) -> DropdownOutcome {
    let wanted = query.to_lowercase();
    let matches = dropdown
        .labels
        .iter()
        .enumerate()
        .filter(|(_, label)| label.to_lowercase().contains(&wanted))
        .map(|(index, _)| index)
        .collect::<Vec<_>>();
    dropdown.search_changed(query.to_string(), &matches)
}

fn open_list_area(dropdown: &mut Dropdown, area: Rect) -> Rect {
    let popup = dropdown.popup_overlay_area(area);
    dropdown.popup_inner_areas(popup).1
}

#[test]
fn custom_action_keys_open_and_commit_dropdown() {
    let keys = DropdownActionKeys {
        open: vec![KeySpec::plain('o')],
        commit: vec![KeySpec::plain('c')],
        toggle: vec![KeySpec::plain('t')],
    };
    let mut dropdown = single_dropdown().action_keys(keys);

    assert!(!press(&mut dropdown, KeyEvent::plain(Key::Enter)).handled);
    assert!(press(&mut dropdown, char_key('o')).opened);
    assert!(press(&mut dropdown, char_key('c')).committed);
}

#[test]
fn open_clones_committed_selection_to_draft() {
    let mut dropdown = single_dropdown().selected_one(BETA);

    dropdown.open();
    press(&mut dropdown, ctrl('j'));
    dropdown.cancel();

    assert_eq!(dropdown.selected_id(), Some(BETA));
}

#[test]
fn cancel_when_closed_preserves_committed_selection() {
    let mut dropdown = single_dropdown().selected_one(BETA);

    let outcome = dropdown.cancel();

    assert_eq!(dropdown.selected_id(), Some(BETA));
    assert_eq!(outcome, DropdownOutcome::handled());
}

#[test]
fn enter_with_or_without_control_commits_single_draft() {
    for key in [KeyEvent::plain(Key::Enter), KeyEvent::new(Key::Enter, KeyModifiers::control())] {
        let mut dropdown = single_dropdown();
        dropdown.open();
        press(&mut dropdown, ctrl('j'));
        press(&mut dropdown, key);

        assert_eq!(dropdown.selected_id(), Some(BETA));
        assert!(!dropdown.is_open());
    }
}

#[test]
fn open_ctrl_j_and_ctrl_k_navigate_items() {
    let mut dropdown = single_dropdown();
    dropdown.open();

    assert!(press(&mut dropdown, ctrl('j')).handled);
    assert_eq!(dropdown.highlighted, Some(BETA));
    assert!(press(&mut dropdown, ctrl('k')).handled);
    assert_eq!(dropdown.highlighted, Some(ALPHA));
    assert!(dropdown.is_open());
}

#[test]
fn closed_plain_j_and_k_do_not_open() {
    for key in [char_key('j'), char_key('k')] {
        let mut dropdown = single_dropdown();

        let outcome = press(&mut dropdown, key);

        assert!(!outcome.opened);
        assert!(!dropdown.is_open());
    }
}

#[test]
fn closed_down_opens_and_moves_the_highlight() {
    let mut dropdown = single_dropdown();

    let outcome = press(&mut dropdown, KeyEvent::plain(Key::Down));

    assert!(outcome.opened);
    assert!(dropdown.is_open());
    assert_eq!(dropdown.highlighted, Some(BETA));
}

#[test]
fn ctrl_d_and_ctrl_u_page_navigation_moves_by_visible_page_step() {
    let mut dropdown = numeric_dropdown(20);

    dropdown.open();
    search(&mut dropdown, "1");
    press(&mut dropdown, ctrl('d'));

    assert_eq!(dropdown.search_query(), "1");
    assert!(dropdown.highlighted.unwrap() > 1);

    press(&mut dropdown, ctrl('u'));
    assert_eq!(dropdown.search_query(), "1");
    assert_eq!(dropdown.highlighted, Some(1));
}

#[test]
fn escape_rolls_back_single_draft() {
    let mut dropdown = single_dropdown().selected_one(ALPHA);

    dropdown.open();
    press(&mut dropdown, ctrl('j'));
    press(&mut dropdown, KeyEvent::plain(Key::Esc));

    assert_eq!(dropdown.selected_id(), Some(ALPHA));
    assert!(!dropdown.is_open());
}

#[test]
fn typing_search_filters_rows_before_commit() {
    let mut dropdown = single_dropdown();

    dropdown.open();
    search(&mut dropdown, "g");
    search(&mut dropdown, "ga");
    press(&mut dropdown, KeyEvent::plain(Key::Enter));

    assert_eq!(dropdown.selected_id(), Some(GAMMA));
}

#[test]
fn enter_commit_clears_search_query() {
    let mut dropdown = single_dropdown();

    dropdown.open();
    search(&mut dropdown, "g");
    press(&mut dropdown, KeyEvent::plain(Key::Enter));

    assert_eq!(dropdown.selected_id(), Some(GAMMA));
    assert_eq!(dropdown.search_query(), "");
}

#[test]
fn escape_cancel_clears_search_query_and_filter() {
    let mut dropdown = single_dropdown();

    dropdown.open();
    search(&mut dropdown, "g");
    press(&mut dropdown, KeyEvent::plain(Key::Esc));

    assert_eq!(dropdown.search_query(), "");
    assert_eq!(dropdown.filtered, vec![ALPHA, BETA, GAMMA]);
}

#[test]
fn immediate_commit_updates_selection_while_open() {
    let mut dropdown = single_dropdown()
        .commit_mode(DropdownCommitMode::Immediate)
        .selected_one(ALPHA);

    dropdown.open();
    let outcome = press(&mut dropdown, ctrl('j'));

    assert!(outcome.committed);
    assert!(dropdown.is_open());
    assert_eq!(dropdown.selected_id(), Some(BETA));
}

#[test]
fn immediate_commit_updates_selection_while_filtering() {
    let mut dropdown = single_dropdown()
        .commit_mode(DropdownCommitMode::Immediate)
        .selected_one(ALPHA);

    dropdown.open();
    let outcome = search(&mut dropdown, "g");

    assert!(outcome.committed);
    assert!(dropdown.is_open());
    assert_eq!(dropdown.selected_id(), Some(GAMMA));
}

#[test]
fn immediate_enter_closes_without_changing_current_selection() {
    let mut dropdown = single_dropdown()
        .commit_mode(DropdownCommitMode::Immediate)
        .selected_one(ALPHA);

    dropdown.open();
    search(&mut dropdown, "g");
    let outcome = press(&mut dropdown, KeyEvent::plain(Key::Enter));

    assert!(outcome.closed);
    assert!(!dropdown.is_open());
    assert_eq!(dropdown.selected_id(), Some(GAMMA));
}

#[test]
fn explicit_single_keeps_trigger_value_until_commit() {
    let mut dropdown = single_dropdown().selected_one(ALPHA);

    dropdown.open();
    press(&mut dropdown, ctrl('j'));

    assert_eq!(dropdown.selected_summary(), "Alpha");
    assert_eq!(dropdown.selected_id(), Some(ALPHA));
}

#[test]
fn open_highlights_committed_selection() {
    let mut dropdown = single_dropdown()
        .search_mode(DropdownSearchMode::Off)
        .selected_one(BETA);

    dropdown.open();

    assert_eq!(dropdown.highlighted, Some(BETA));
}

#[test]
fn open_preserves_unfocused_state() {
    let mut dropdown = single_dropdown();

    dropdown.open();

    assert!(dropdown.is_open());
    assert!(!dropdown.is_focused());
}

#[test]
fn multi_toggle_then_escape_rolls_back() {
    let mut dropdown = multi_dropdown().selected(vec![ALPHA]);

    dropdown.open();
    press(&mut dropdown, ctrl('j'));
    press(&mut dropdown, KeyEvent::plain(Key::Enter));
    press(&mut dropdown, KeyEvent::plain(Key::Esc));

    assert_eq!(dropdown.selected_ids(), vec![ALPHA]);
}

#[test]
fn ctrl_space_toggles_highlighted_multi_row() {
    let mut dropdown = multi_dropdown();

    dropdown.open();
    press(&mut dropdown, ctrl('j'));
    press(&mut dropdown, ctrl(' '));

    assert_eq!(dropdown.draft, vec![BETA]);
}

#[test]
fn ctrl_space_commits_highlighted_single_row() {
    let mut dropdown = single_dropdown();

    dropdown.open();
    press(&mut dropdown, ctrl('j'));
    let outcome = press(&mut dropdown, ctrl(' '));

    assert!(outcome.committed);
    assert_eq!(dropdown.selected_id(), Some(BETA));
    assert!(!dropdown.is_open());
}

#[test]
fn space_toggles_a_multi_row_and_escape_forgets_it() {
    let mut dropdown = multi_dropdown();

    dropdown.open();
    let toggle = press(&mut dropdown, char_key(' '));

    assert!(toggle.changed);
    assert!(dropdown.is_open());
    assert_eq!(dropdown.draft, vec![ALPHA]);
    assert!(dropdown.selected_ids().is_empty());

    press(&mut dropdown, KeyEvent::plain(Key::Esc));
    assert!(dropdown.selected_ids().is_empty());
}

#[test]
fn no_selection_text_can_be_selected_to_clear_value() {
    let mut dropdown = single_dropdown()
        .variant(DropdownVariant::Filled)
        .no_selection_text("--None--".to_string())
        .selected_one(ALPHA);

    dropdown.open();
    press(&mut dropdown, ctrl('k'));
    press(&mut dropdown, KeyEvent::plain(Key::Enter));

    assert_eq!(dropdown.selected_id(), None);
}

#[test]
fn clearing_row_commit_shows_its_text_as_the_summary() {
    let mut dropdown = single_dropdown()
        .no_selection_text("None".to_string())
        .selected_one(ALPHA);

    dropdown.open();
    press(&mut dropdown, ctrl('k'));
    let outcome = press(&mut dropdown, KeyEvent::new(Key::Enter, KeyModifiers::control()));

    assert!(outcome.committed);
    assert_eq!(dropdown.selected_id(), None);
    assert_eq!(dropdown.selected_summary(), "None");
}

#[test]
fn nonmatching_search_hides_no_selection_text() {
    let mut dropdown = single_dropdown()
        .search_mode(DropdownSearchMode::Contains)
        .no_selection_text("--None--".to_string());

    dropdown.open();
    search(&mut dropdown, "z");

    assert!(!dropdown.show_no_selection_row());
    assert!(!dropdown.no_selection_highlighted);
}

#[test]
fn explicit_nonmatching_search_preserves_selected_value_on_commit() {
    let mut dropdown = single_dropdown()
        .search_mode(DropdownSearchMode::Contains)
        .no_selection_text("--None--".to_string())
        .selected_one(BETA);

    dropdown.open();
    search(&mut dropdown, "z");

    assert!(dropdown.filtered.is_empty());
    assert_eq!(dropdown.draft, vec![BETA]);
    assert_eq!(dropdown.selected_id(), Some(BETA));

    press(&mut dropdown, KeyEvent::plain(Key::Enter));

    assert_eq!(dropdown.selected_id(), Some(BETA));
}

#[test]
fn clearing_nonmatching_query_restores_preserved_selection_highlight() {
    let mut dropdown = single_dropdown()
        .commit_mode(DropdownCommitMode::Immediate)
        .no_selection_text("--None--".to_string())
        .selected_one(BETA);

    dropdown.open();
    search(&mut dropdown, "z");
    search(&mut dropdown, "");

    assert_eq!(dropdown.search_query(), "");
    assert_eq!(dropdown.filtered, vec![ALPHA, BETA, GAMMA]);
    assert!(dropdown.show_no_selection_row());
    assert!(!dropdown.no_selection_highlighted);
    assert_eq!(dropdown.highlighted, Some(BETA));
    assert_eq!(dropdown.selected_id(), Some(BETA));
}

#[test]
fn immediate_no_selection_text_clears_value_when_highlighted() {
    let mut dropdown = single_dropdown()
        .variant(DropdownVariant::Filled)
        .search_mode(DropdownSearchMode::Off)
        .commit_mode(DropdownCommitMode::Immediate)
        .no_selection_text("--None--".to_string())
        .selected_one(ALPHA);

    dropdown.open();
    let outcome = press(&mut dropdown, ctrl('k'));

    assert_eq!(dropdown.selected_id(), None);
    assert!(outcome.committed);
}

#[test]
fn bordered_dropdown_measure_reports_field_height() {
    let dropdown = single_dropdown();

    let hint: LayoutSizeHint = dropdown.measure(0, 0, 0);

    assert_eq!(hint.preferred.height, 3);
    assert!(!hint.expand.height);
}

#[test]
fn filled_dropdown_measure_reports_compact_field_height() {
    let dropdown = single_dropdown().variant(DropdownVariant::Filled);

    let hint = dropdown.measure(0, 0, 0);

    assert_eq!(hint.preferred.height, 1);
    assert!(!hint.expand.height);
}

#[test]
fn open_layout_sizes_popup_to_visible_items() {
    let mut dropdown = single_dropdown();
    dropdown.open();

    let area = open_list_area(&mut dropdown, Rect::new(0, 0, 24, 20));

    assert_eq!(area.height, 3);
}

#[test]
fn bordered_and_filled_popups_size_to_same_content_with_variant_chrome() {
    let mut bordered = single_dropdown();
    bordered.open();
    let mut filled = single_dropdown().variant(DropdownVariant::Filled);
    filled.open();
    let area = Rect::new(0, 0, 24, 20);

    let bordered_popup = bordered.popup_area_for(bordered.field_area(area), area);
    let filled_popup = filled.popup_area_for(filled.field_area(area), area);
    let bordered_list = bordered.popup_inner_areas(bordered_popup).1;
    let filled_list = filled.popup_inner_areas(filled_popup).1;

    assert_eq!(bordered_list.height, 3);
    assert_eq!(filled_list.height, 3);
    assert_eq!(bordered_popup.height, 6);
    assert_eq!(filled_popup.height, 4);
}

#[test]
fn bordered_popup_area_overlaps_field_bottom_row() {
    let mut dropdown = single_dropdown();
    dropdown.open();

    let field_area = dropdown.field_area(AREA);
    let popup_area = dropdown.popup_area_for(field_area, AREA);

    assert_eq!(popup_area.y, field_area.y + field_area.height - 1);
}

#[test]
fn dynamic_popup_opens_down_when_desired_height_fits() {
    let mut dropdown = single_dropdown();
    dropdown.open();
    dropdown.layout_overlay(Rect::new(0, 0, 24, 3), Rect::new(0, 0, 24, 20));

    let popup_area = dropdown.popup_overlay_area(Rect::new(0, 0, 24, 20));

    assert_eq!(popup_area, Rect::new(0, 2, 24, 6));
    assert!(popup_area.y + popup_area.height > 3);
}

#[test]
fn dynamic_popup_opens_down_when_desired_height_exactly_fits() {
    let mut dropdown = single_dropdown();
    dropdown.open();
    let field_area = Rect::new(0, 4, 24, 3);
    let bounds = Rect::new(0, 0, 24, 12);
    dropdown.layout_overlay(field_area, bounds);

    let popup_area = dropdown.popup_overlay_area(bounds);

    assert_eq!(popup_area, Rect::new(0, 6, 24, 6));
}

#[test]
fn explicit_down_popup_stays_down_and_clips() {
    let mut dropdown = single_dropdown().popup_direction(DropdownPopupDirection::Down);
    dropdown.open();
    let field_area = Rect::new(0, 8, 24, 3);
    let bounds = Rect::new(0, 0, 24, 12);
    dropdown.layout_overlay(field_area, bounds);

    let popup_area = dropdown.popup_overlay_area(bounds);

    assert_eq!(popup_area, Rect::new(0, 10, 24, 2));
}

#[test]
fn centered_popup_overlay_centers_popup_within_bounds() {
    let mut dropdown = single_dropdown().centered(true);
    dropdown.open();
    dropdown.layout_overlay(Rect::new(2, 2, 24, 3), Rect::new(0, 0, 100, 40));

    let popup_area = dropdown.popup_overlay_area(Rect::new(0, 0, 100, 40));

    assert_eq!(popup_area, Rect::new(30, 17, 40, 6));
}

#[test]
fn filled_popup_layout_has_no_border_offset() {
    let mut dropdown = single_dropdown().variant(DropdownVariant::Filled);
    dropdown.open();

    let popup_area = dropdown.popup_area_for(dropdown.field_area(AREA), AREA);
    let (search_area, list_area) = dropdown.popup_inner_areas(popup_area);

    assert_eq!(search_area.y, popup_area.y);
    assert_eq!(search_area.x, popup_area.x);
    assert_eq!(list_area.y, popup_area.y + 1);
    assert_eq!(list_area.x, popup_area.x);
}

#[test]
fn open_layout_sizes_popup_to_no_results_row() {
    let mut dropdown = single_dropdown();
    dropdown.open();
    search(&mut dropdown, "z");

    let area = open_list_area(&mut dropdown, Rect::new(0, 0, 24, 20));

    assert_eq!(area.height, 1);
}

#[test]
fn open_layout_caps_popup_at_default_max() {
    let mut dropdown = numeric_dropdown(40);
    dropdown.open();

    let area = open_list_area(&mut dropdown, Rect::new(0, 0, 24, 60));

    assert_eq!(area.height, 27);
}

#[test]
fn max_popup_height_overrides_preset_max() {
    let mut dropdown = numeric_dropdown(40).max_popup_height(5);
    dropdown.open();

    let area = open_list_area(&mut dropdown, Rect::new(0, 0, 24, 60));

    assert_eq!(area.height, 2);
}

#[test]
fn filled_popup_caps_height_without_border_chrome() {
    let mut dropdown = numeric_dropdown(40).variant(DropdownVariant::Filled);
    dropdown.open();
    let area = Rect::new(0, 0, 24, 60);

    let popup_area = dropdown.popup_area_for(dropdown.field_area(area), area);
    let list_area = dropdown.popup_inner_areas(popup_area).1;

    assert_eq!(popup_area.height, 30);
    assert_eq!(list_area.height, 29);
}

#[test]
fn cancel_restores_the_choice_held_when_the_popup_opened() {
    let mut dropdown = multi_dropdown().selected(vec![ALPHA]);
    dropdown.open();
    press(&mut dropdown, ctrl('j'));
    press(&mut dropdown, KeyEvent::plain(Key::Enter));
    search(&mut dropdown, "a");
    assert_eq!(dropdown.draft, vec![ALPHA, BETA]);
    assert_eq!(dropdown.selected_ids(), vec![ALPHA]);

    let outcome = press(&mut dropdown, ctrl('['));

    assert!(outcome.canceled);
    assert!(!dropdown.is_open());
    assert_eq!(dropdown.search_query(), "");
    assert_eq!(dropdown.selected_ids(), vec![ALPHA]);
    assert_eq!(dropdown.draft, vec![ALPHA]);
}

#[test]
fn upward_popup_ends_at_the_field_and_clips_to_the_room_above() {
    let mut dropdown = single_dropdown().popup_direction(DropdownPopupDirection::Up);
    dropdown.open();
    let field_area = Rect::new(0, 8, 24, 3);
    let bounds = Rect::new(0, 0, 24, 12);
    dropdown.layout_overlay(field_area, bounds);

    assert_eq!(dropdown.popup_overlay_area(bounds), Rect::new(0, 2, 24, 6));

    dropdown.layout_overlay(Rect::new(0, 1, 24, 3), bounds);
    assert_eq!(dropdown.popup_overlay_area(bounds), Rect::new(0, 0, 24, 1));
}

#[test]
fn closed_ctrl_j_and_ctrl_k_do_not_open_or_navigate() {
    for key in [ctrl('j'), ctrl('k')] {
        let mut dropdown = single_dropdown();

        let outcome = press(&mut dropdown, key);

        assert_eq!(outcome, DropdownOutcome::idle());
        assert!(!dropdown.is_open());
        assert_eq!(dropdown.highlighted, Some(ALPHA));
    }
}

#[test]
fn enter_toggles_and_ctrl_enter_commits_multi_selection() {
    let mut dropdown = multi_dropdown();

    dropdown.open();
    let toggle = press(&mut dropdown, KeyEvent::plain(Key::Enter));

    assert!(toggle.changed);
    assert!(dropdown.is_open());
    assert_eq!(dropdown.draft, vec![ALPHA]);
    assert!(dropdown.selected_ids().is_empty());

    let commit = press(&mut dropdown, KeyEvent::new(Key::Enter, KeyModifiers::control()));

    assert!(commit.committed);
    assert!(!dropdown.is_open());
    assert_eq!(dropdown.selected_ids(), vec![ALPHA]);
}

#[test]
fn immediate_cancel_keys_keep_committed_navigation_value() {
    for cancel in [KeyEvent::plain(Key::Esc), ctrl('[')] {
        let mut dropdown = single_dropdown()
            .commit_mode(DropdownCommitMode::Immediate)
            .selected_one(ALPHA);
        dropdown.open();
        search(&mut dropdown, "g");
        press(&mut dropdown, cancel);

        assert!(!dropdown.is_open());
        assert_eq!(dropdown.selected_id(), Some(GAMMA));
    }
}

#[test]
fn immediate_cancel_keeps_callback_and_selection_consistent() {
    let mut dropdown = single_dropdown()
        .commit_mode(DropdownCommitMode::Immediate)
        .selected_one(ALPHA);

    dropdown.open();
    let moved = press(&mut dropdown, ctrl('j'));
    dropdown.cancel();

    // the outcome of the move reports the commit a selection callback would hear of
    assert!(moved.committed);
    assert_eq!(dropdown.selected_id(), Some(BETA));
    assert_eq!(dropdown.selected_ids(), vec![BETA]);
}

#[test]
fn bordered_field_places_text_arrow_title_and_badge() {
    let dropdown = single_dropdown().label("Name".to_string()).hotkey("n".to_string());

    let plan = dropdown.bordered_field_plan(Rect::new(0, 0, 20, 3), 3);

    assert_eq!(plan.inner, Rect::new(1, 1, 18, 1));
    assert_eq!(plan.text_area, Rect::new(1, 1, 15, 1));
    assert_eq!(plan.arrow, Some(Rect::new(17, 1, 1, 1)));
    assert_eq!(plan.label_title, Some((" Name ".to_string(), Rect::new(2, 0, 6, 1))));
    assert_eq!(plan.hotkey_badge, Some(Rect::new(17, 2, 3, 1)));

    let narrow = single_dropdown().label("Name".to_string()).hotkey("n".to_string());
    let plan = narrow.bordered_field_plan(Rect::new(0, 0, 4, 3), 3);
    assert_eq!(plan.label_title, None);
    assert_eq!(plan.hotkey_badge, None);
    assert_eq!(plan.arrow, Some(Rect::new(1, 1, 1, 1)));
}

#[test]
fn default_action_keys_are_the_standard_ones() {
    assert_eq!(DropdownActionKeys::default(), DropdownActionKeys::new());
    let fresh = single_dropdown();
    assert_eq!(fresh.action_keys, DropdownActionKeys::new());
    assert_eq!(fresh.placeholder, "Select...");
    assert_eq!(fresh.commit_mode, DropdownCommitMode::Explicit);
}

#[test]
fn search_can_require_a_minimum_query_and_limit_matches() {
    let mut dropdown = Dropdown::single(vec![1, 2, 3, 4], labels(&["Alpha", "Alpine", "Alpaca", "Beta"]))
        .min_search_chars(3)
        .max_filtered_items(2);

    dropdown.open();
    search(&mut dropdown, "a");
    search(&mut dropdown, "al");
    assert!(dropdown.filtered.is_empty());

    search(&mut dropdown, "alp");
    assert_eq!(dropdown.filtered.len(), 2);
    assert_eq!(dropdown.filtered, vec![1, 2]);
}

#[test]
fn dropdown_can_show_a_default_subset_then_search_all_options() {
    let mut dropdown = Dropdown::single(vec![1, 2, 3], labels(&["Active one", "Active two", "Resolved match"]))
        .visible_without_search(vec![1, 2])
        .min_search_chars(1)
        .max_filtered_items(10);

    dropdown.open();
    assert_eq!(dropdown.filtered, vec![1, 2]);

    search(&mut dropdown, "R");
    assert_eq!(dropdown.filtered, vec![3]);
}

#[test]
fn clearing_the_search_text_shows_the_default_subset_again() {
    let mut dropdown = Dropdown::single(vec![1, 2, 3], labels(&["Active one", "Active two", "Resolved match"]))
        .visible_without_search(vec![3, 1]);
    assert_eq!(dropdown.filtered, vec![1, 3]);

    dropdown.open();
    search(&mut dropdown, "two");
    assert_eq!(dropdown.filtered, vec![2]);
    search(&mut dropdown, "");
    assert_eq!(dropdown.filtered, vec![1, 3]);
    dropdown.close();
    assert_eq!(dropdown.filtered, vec![1, 3]);
}

#[test]
fn cancel_after_many_open_steps_restores_the_choice_held_at_opening() {
    let mut dropdown = multi_dropdown().selected(vec![BETA]);
    dropdown.open();
    press(&mut dropdown, KeyEvent::plain(Key::Down));
    press(&mut dropdown, char_key(' '));
    search(&mut dropdown, "al");
    press(&mut dropdown, char_key(' '));
    search(&mut dropdown, "");
    press(&mut dropdown, KeyEvent::plain(Key::Up));
    press(&mut dropdown, char_key(' '));
    assert!(dropdown.is_open());

    let outcome = dropdown.cancel();
    assert!(outcome.canceled && outcome.closed && outcome.handled);
    assert_eq!(dropdown.selected_ids(), vec![BETA]);
    assert_eq!(dropdown.draft, vec![BETA]);
    assert!(!dropdown.is_open());
    assert_eq!(dropdown.search_query(), "");
}

#[test]
fn external_search_does_not_filter_the_rows() {
    let mut dropdown = single_dropdown().search_mode(DropdownSearchMode::External);
    dropdown.open();
    search(&mut dropdown, "a");
    search(&mut dropdown, "al");
    assert_eq!(dropdown.filtered, vec![ALPHA, BETA, GAMMA]);
    assert_eq!(dropdown.search_query(), "al");
}
