use tui_components::form_field::FormField;
use tui_components::geometry::{LayoutProposal, LayoutSize, LayoutSizeHint, Rect};

/// What the probe child reports: 10 x 2 cells.
fn child_hint() -> LayoutSizeHint {
    LayoutSizeHint::content(10, 2)
}

fn measure(field: &FormField) -> LayoutSize {
    let _offered = field.child_proposal(LayoutProposal::unbounded());
    field.measure(child_hint()).preferred
}

#[test]
fn measurement_consumes_feedback_height_only_while_error_is_visible() {
    let mut field = FormField::new("Name".to_string());

    assert_eq!(measure(&field), LayoutSize::new(12, 4));

    field.set_error(Some("Required".into()));
    assert_eq!(measure(&field), LayoutSize::new(12, 5));

    field.set_error(None);
    assert_eq!(measure(&field), LayoutSize::new(12, 4));
}

#[test]
fn embedded_field_skips_panel_and_only_adds_visible_feedback_row() {
    let mut field = FormField::new("Ignored".to_string()).embedded();

    assert_eq!(measure(&field), LayoutSize::new(10, 2));
    field.set_error(Some("Required".into()));
    assert_eq!(measure(&field), LayoutSize::new(10, 3));
    let child = field.layout(Rect::new(0, 0, 16, 3));
    assert_eq!(child, Rect::new(0, 0, 16, 2));
}

#[test]
fn routes_layout_event_focus_tick_and_lifecycle_through_one_child_slot() {
    let mut field = FormField::new("Name".to_string());
    let child = field.layout(Rect::new(2, 3, 14, 6));

    assert_eq!(child, Rect::new(3, 4, 12, 4));
    assert_eq!(field.child_area, child);
}

#[test]
fn error_colors_border_title_and_message_and_places_message_below_panel() {
    let mut field = FormField::new("Name".to_string());
    field.set_error(Some("Required".into()));
    let child = field.layout(Rect::new(0, 0, 16, 6));
    assert_eq!(child, Rect::new(1, 1, 14, 3));
    assert_eq!(measure(&field), LayoutSize::new(12, 5));
    assert_eq!(field.panel_area, Rect::new(0, 0, 16, 5));
    assert_eq!(field.feedback_area, Rect::new(0, 5, 16, 1));
}

#[test]
fn normal_field_uses_full_area_without_blank_feedback_reservation() {
    let mut field = FormField::new("Name".to_string());
    let child = field.layout(Rect::new(0, 0, 16, 6));

    assert_eq!(field.panel_area, Rect::new(0, 0, 16, 6));
    assert_eq!(field.feedback_area.height, 0);
    assert_eq!(child, Rect::new(1, 1, 14, 4));
}

#[test]
fn tiny_areas_are_safe() {
    let mut field = FormField::new("Name".to_string());
    field.set_error(Some("Required".into()));

    for area in [Rect::new(0, 0, 0, 0), Rect::new(0, 0, 1, 1)] {
        let child = field.layout(area);
        assert!(child.width <= area.width && child.height <= area.height);
    }
}

#[test]
fn child_is_offered_the_space_inside_the_panel_and_above_the_message() {
    let mut field = FormField::new("Name".to_string());
    field.set_error(Some("Required".into()));
    assert_eq!(
        field.child_proposal(LayoutProposal::at_most(20, 10)),
        LayoutProposal::at_most(18, 7)
    );
}
