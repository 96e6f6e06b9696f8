use tui_components::keys::{Key, KeyEvent, KeyModifiers, KeySpec};
use tui_components::list_control::{
    check_fields, move_block_visual_boundary, unavailable_reason, DataViewDisplayAction, EditorStep,
    FieldsProblem, ListControlDisplayKeyBindings, ListControlEditor, ListControlEvent, ListControlField,
    ListControlKeyBindings, ListControlReorderUnavailable, ReorderUnavailableReason,
};
use tui_components::list_control::{
    event_routes, list_control_areas, ListControlRoute, ListControlTarget, RoutingState,
};
use tui_components::geometry::{LayoutSize, Rect};

fn ctrl(c: char) -> KeyEvent {
    KeyEvent::new(Key::Char(c), KeyModifiers::control())
}

#[test]
fn standard_bindings_add_remove_edit_and_reorder() {
    let keys = ListControlKeyBindings::standard();
    assert!(keys.add_matches(KeyEvent::plain(Key::Char('+'))));
    assert!(keys.add_child_matches(KeyEvent::plain(Key::Char('\\'))));
    assert!(keys.remove_matches(ctrl('x')));
    assert!(!keys.remove_matches(KeyEvent::plain(Key::Char('x'))));
    assert!(keys.edit_matches(KeyEvent::plain(Key::Char('e'))));
    assert!(keys.reorder_matches(ctrl('m')));
    assert!(!keys.reorder_matches(KeyEvent::plain(Key::Char('m'))));

    let custom = keys.reorder(vec![KeySpec::plain('r')]);
    assert!(custom.reorder_matches(KeyEvent::plain(Key::Char('r'))));
    assert!(!custom.reorder_matches(ctrl('m')));
}

#[test]
fn display_bindings_pick_the_first_matching_action() {
    let keys = ListControlDisplayKeyBindings::new()
        .line_up(vec![KeySpec::key(Key::Up)])
        .line_down(vec![KeySpec::key(Key::Down)])
        .top(vec![KeySpec::key(Key::Home)])
        .top_prefix(vec![KeySpec::plain('g')])
        .bottom(vec![KeySpec::plain('G')])
        .activate(vec![KeySpec::key(Key::Enter)]);
    assert_eq!(keys.action(KeyEvent::plain(Key::Up)), Some(DataViewDisplayAction::LineUp));
    assert_eq!(keys.action(KeyEvent::plain(Key::Down)), Some(DataViewDisplayAction::LineDown));
    assert_eq!(keys.action(KeyEvent::plain(Key::Home)), Some(DataViewDisplayAction::Top));
    assert_eq!(keys.action(KeyEvent::plain(Key::Char('G'))), Some(DataViewDisplayAction::Bottom));
    assert_eq!(keys.action(KeyEvent::plain(Key::Enter)), Some(DataViewDisplayAction::Activate));
    assert_eq!(keys.action(KeyEvent::plain(Key::Char('g'))), None);
    assert!(keys.top_prefix_matches(KeyEvent::plain(Key::Char('g'))));
}

#[test]
fn block_boundary_steps_over_unselected_rows_one_at_a_time() {
    let ids = vec![10, 20, 30, 40, 50];
    let selected = vec![20, 30];
    assert_eq!(move_block_visual_boundary(&ids, &selected, 4, -1), 3);
    assert_eq!(move_block_visual_boundary(&ids, &selected, 4, 1), 5);
    assert_eq!(move_block_visual_boundary(&ids, &selected, 5, 1), 5);
    assert_eq!(move_block_visual_boundary(&ids, &selected, 0, -1), 0);
}

#[test]
fn block_boundary_jumps_over_runs_of_selected_rows() {
    let ids = vec![10, 20, 30, 40, 50];
    let selected = vec![20, 30];
    assert_eq!(move_block_visual_boundary(&ids, &selected, 3, -1), 1);
    assert_eq!(move_block_visual_boundary(&ids, &selected, 1, 1), 3);
    assert_eq!(move_block_visual_boundary(&ids, &selected, 9, -1), 4);
    assert_eq!(move_block_visual_boundary(&ids, &selected, 2, 0), 2);
}

#[test]
fn fields_are_checked_before_a_form_is_built() {
    assert_eq!(check_fields(&vec![]), Some(FieldsProblem::NoFields));
    let empty_option = ListControlField::dropdown_options(
        "Kind".to_string(),
        vec![("a".to_string(), "A".to_string()), ("".to_string(), "B".to_string())],
    );
    assert_eq!(check_fields(&vec![empty_option]), Some(FieldsProblem::EmptyOption));
    let later = ListControlField::text("Name".to_string()).visible_when(1, vec!["x".to_string()]);
    let other = ListControlField::text("Other".to_string());
    assert_eq!(check_fields(&vec![later, other]), Some(FieldsProblem::LaterVisibility));
    let first = ListControlField::text("Name".to_string());
    let second = ListControlField::text("Note".to_string()).optional().visible_when(0, vec!["x".to_string()]);
    assert_eq!(check_fields(&vec![first, second]), None);
}

#[test]
fn editor_walks_fields_and_reports_the_added_row() {
    let fields = vec![
        ListControlField::text("Name".to_string()),
        ListControlField::text("Note".to_string()).optional(),
    ];
    let mut editor = ListControlEditor::new_fields(&fields);
    assert!(!editor.editor_active());

    editor.begin_add(None);
    assert!(editor.editor_active());
    assert!(!editor.can_submit());
    assert_eq!(editor.advance_field(), EditorStep::Blocked);

    editor.set_value(0, "Milk".to_string());
    assert!(editor.can_submit());
    assert_eq!(editor.advance_field(), EditorStep::Next(1));
    assert_eq!(editor.advance_field(), EditorStep::Submit);

    editor.finish_add(7, None);
    assert!(!editor.editor_active());
    assert_eq!(editor.events, vec![ListControlEvent::Added { row_id: 7 }]);
    assert!(editor.values.iter().all(|value| value.is_empty()));
}

#[test]
fn editor_reports_edits_children_and_cancellations() {
    let fields = vec![ListControlField::text("Name".to_string())];
    let mut editor = ListControlEditor::new_fields(&fields);

    editor.begin_add(Some(3));
    editor.finish_add(8, Some(3));
    editor.begin_edit(8, vec!["Eggs".to_string()]);
    assert_eq!(editor.values, vec!["Eggs".to_string()]);
    editor.finish_edit(8, true);
    editor.begin_edit(9, vec!["Gone".to_string()]);
    editor.finish_edit(9, false);
    editor.begin_add(None);
    editor.cancel_editor();

    assert_eq!(
        editor.events,
        vec![
            ListControlEvent::AddedChild { row_id: 8, parent_id: 3 },
            ListControlEvent::Edited { row_id: 8 },
            ListControlEvent::EditCancelled { row_id: 9 },
            ListControlEvent::AddCancelled,
        ]
    );
}

#[test]
fn data_view_reasons_keep_their_names() {
    assert_eq!(unavailable_reason(ReorderUnavailableReason::Tree), ListControlReorderUnavailable::Tree);
    assert_eq!(
        unavailable_reason(ReorderUnavailableReason::DuplicateRankKeys),
        ListControlReorderUnavailable::DuplicateRankKeys
    );
}

#[test]
fn default_bindings_are_the_standard_ones() {
    assert_eq!(ListControlKeyBindings::default(), ListControlKeyBindings::standard());
}

#[test]
fn dropdown_fields_are_edited_with_a_filled_fuzzy_dropdown() {
    let options = vec![("a".to_string(), "Alpha".to_string()), ("b".to_string(), "Beta".to_string())];
    let optional = ListControlField::dropdown_options("Pick".to_string(), options.clone()).optional();
    let dropdown = ListControlEditor::field_dropdown(&optional).expect("a dropdown field");

    assert_eq!(dropdown.ids, vec![0, 1]);
    assert_eq!(dropdown.labels, vec!["Alpha".to_string(), "Beta".to_string()]);
    assert_eq!(dropdown.placeholder, "Pick");
    assert_eq!(dropdown.no_selection_text, Some("No selection".to_string()));
    assert!(!dropdown.multi);

    let required = ListControlField::dropdown_options("Pick".to_string(), options);
    assert_eq!(ListControlEditor::field_dropdown(&required).expect("a dropdown field").no_selection_text, None);
    assert!(ListControlEditor::field_dropdown(&ListControlField::text("Name".to_string())).is_none());
}

#[test]
fn dropdown_field_search_settings_reach_its_dropdown() {
    let options = vec![
        ("a".to_string(), "Alpha".to_string()),
        ("b".to_string(), "Beta".to_string()),
        ("c".to_string(), "Gamma".to_string()),
    ];
    let field = ListControlField::dropdown_options("Pick".to_string(), options)
        .min_search_chars(3)
        .max_filtered_items(1)
        .visible_without_search(vec!["c".to_string(), "a".to_string()]);
    let mut dropdown = ListControlEditor::field_dropdown(&field).expect("a dropdown field");

    assert_eq!(dropdown.min_search_chars, 3);
    assert_eq!(dropdown.max_filtered_items, Some(1));
    assert_eq!(dropdown.visible_without_search, Some(vec![0, 2]));
    assert_eq!(dropdown.filtered, vec![0, 2]);

    dropdown.open();
    assert_eq!(dropdown.filtered, vec![0, 2]);
    dropdown.search_changed("al".to_string(), &vec![0]);
    assert!(dropdown.filtered.is_empty());
    dropdown.search_changed("alp".to_string(), &vec![0, 1]);
    assert_eq!(dropdown.filtered, vec![0]);
}

#[test]
fn list_control_areas_put_the_input_row_at_the_bottom_and_centre_the_dialog() {
    let area = Rect::new(0, 0, 30, 10);
    let inner = Rect::new(1, 1, 28, 8);
    let columns = vec![Rect::new(3, 0, 5, 8), Rect::new(9, 0, 0, 8), Rect::new(10, 0, 12, 8)];

    let idle = list_control_areas(area, inner, Rect::new(0, 0, 0, 0), false, 1, &columns, None);
    assert_eq!(idle.data, inner);
    assert_eq!(idle.input, Rect::new(0, 0, 0, 0));
    assert_eq!(idle.dialog, Rect::new(0, 0, 0, 0));
    assert_eq!(idle.dialog_bounds, Rect::new(0, 0, 0, 0));

    let editing = list_control_areas(area, inner, Rect::new(0, 0, 0, 0), true, 2, &columns, Some(LayoutSize::new(10, 4)));
    assert_eq!(editing.data, Rect::new(1, 1, 28, 6));
    assert_eq!(editing.input, Rect::new(3, 7, 19, 2));
    assert_eq!(editing.dialog_bounds, area);
    assert_eq!(editing.dialog, Rect::new(10, 3, 10, 4));

    let tall_row = list_control_areas(area, inner, Rect::new(0, 0, 40, 20), true, 12, &vec![], Some(LayoutSize::new(50, 3)));
    assert_eq!(tall_row.data, Rect::new(1, 1, 28, 0));
    assert_eq!(tall_row.input, Rect::new(1, 1, 28, 8));
    assert_eq!(tall_row.dialog, Rect::new(0, 8, 40, 3));
}

#[test]
fn events_are_offered_to_handlers_in_order() {
    let idle = RoutingState { reordering: false, dialog_open: false, editor_active: false, data_interaction: false };
    assert_eq!(
        event_routes(idle, true, ListControlTarget::Data { deeper: false }),
        vec![ListControlRoute::Reorder, ListControlRoute::ControlKey, ListControlRoute::DataView]
    );
    assert_eq!(event_routes(idle, true, ListControlTarget::Data { deeper: true }), vec![ListControlRoute::DataView]);
    assert_eq!(event_routes(idle, false, ListControlTarget::Control), vec![]);
    assert_eq!(event_routes(idle, true, ListControlTarget::Elsewhere), vec![]);

    let dialog = RoutingState { dialog_open: true, reordering: true, ..idle };
    assert_eq!(
        event_routes(dialog, true, ListControlTarget::Data { deeper: false }),
        vec![ListControlRoute::Reorder, ListControlRoute::Dialog]
    );

    let editing = RoutingState { editor_active: true, ..idle };
    assert_eq!(
        event_routes(editing, true, ListControlTarget::ActiveInput),
        vec![ListControlRoute::ControlKey, ListControlRoute::Input]
    );
    assert_eq!(
        event_routes(editing, true, ListControlTarget::Control),
        vec![ListControlRoute::ControlKey, ListControlRoute::ControlKey]
    );
    let busy = RoutingState { data_interaction: true, ..idle };
    assert_eq!(event_routes(busy, true, ListControlTarget::Data { deeper: false }), vec![ListControlRoute::DataView]);
}
