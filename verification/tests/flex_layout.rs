use tui_components::flex::{
    add_distributed_spare, distribute_spare, justify_spaces, separator_slots, shrink_fit_content, CrossAlign,
    CrossSize, Flex, FlexChild, FlexItem, MainAlign,
};
use tui_components::geometry::{
    LayoutProposal, LayoutSize, LayoutSizeHint, Padding, Rect, Separator,
};

fn key(name: &str) -> String {
    name.to_string()
}

/// What children that do not measure themselves report.
fn legacy(n: usize) -> Vec<Option<LayoutSizeHint>> {
    vec![Some(LayoutSizeHint::legacy()); n]
}

fn lay_out(flex: &mut Flex, area: Rect) -> Option<(u16, u16)> {
    let n = flex.items.len();
    flex.layout(area, &legacy(n), &legacy(n))
}

fn measured(min: (u16, u16), preferred: (u16, u16)) -> Option<LayoutSizeHint> {
    Some(LayoutSizeHint::measured(
        LayoutSize::new(min.0, min.1),
        LayoutSize::new(preferred.0, preferred.1),
    ))
}

#[test]
fn flex_row_calculates_fixed_percent_fill_gap_and_padding() {
    let mut flex = Flex::row()
        .padding(Padding::horizontal_vertical(2, 1))
        .gap(1)
        .child(key("fixed"), FlexItem::fixed(10))
        .child(key("percent"), FlexItem::percent(50))
        .child(key("fill"), FlexItem::fill(1));

    lay_out(&mut flex, Rect::new(0, 0, 100, 5));

    assert_eq!(flex.child_rect(&key("fixed")).unwrap(), Rect::new(2, 1, 10, 3));
    assert_eq!(flex.child_rect(&key("percent")).unwrap().width, 47);
    assert_eq!(flex.child_rect(&key("fill")).unwrap().width, 37);
    assert_eq!(flex.rects[0].0, "fixed");
}

#[test]
fn flex_row_separator_reserves_space_between_items() {
    let mut flex = Flex::row()
        .gap(2)
        .separator(Separator::new())
        .child(key("one"), FlexItem::fixed(2))
        .child(key("two"), FlexItem::fixed(2));

    lay_out(&mut flex, Rect::new(0, 0, 7, 3));

    assert_eq!(flex.child_rect(&key("one")).unwrap().x, 0);
    assert_eq!(flex.child_rect(&key("two")).unwrap().x, 5);
    assert_eq!(flex.separator_rects, vec![Rect::new(3, 0, 1, 3)]);
}

#[test]
fn flex_column_separator_reserves_space_between_items() {
    let mut flex = Flex::column()
        .separator(Separator::new())
        .child(key("one"), FlexItem::fixed(2))
        .child(key("two"), FlexItem::fixed(2));

    lay_out(&mut flex, Rect::new(0, 0, 4, 5));

    assert_eq!(flex.child_rect(&key("one")).unwrap().y, 0);
    assert_eq!(flex.child_rect(&key("two")).unwrap().y, 3);
    assert_eq!(flex.separator_rects, vec![Rect::new(0, 2, 4, 1)]);
}

#[test]
fn flex_separator_omits_zero_or_one_child() {
    let mut empty = Flex::row().separator(Separator::new());
    let mut one = Flex::row().separator(Separator::new()).child(key("one"), FlexItem::fixed(2));

    lay_out(&mut empty, Rect::new(0, 0, 4, 1));
    lay_out(&mut one, Rect::new(0, 0, 4, 1));

    assert!(empty.separator_rects.is_empty());
    assert!(one.separator_rects.is_empty());
}

#[test]
fn flex_measure_includes_separator_space() {
    let flex = Flex::row()
        .separator(Separator::new())
        .child(key("one"), FlexItem::fit_content())
        .child(key("two"), FlexItem::fit_content());
    let hints = vec![measured((2, 1), (3, 1)), measured((2, 1), (3, 1))];

    let hint = flex.measure(LayoutProposal::unbounded(), &hints);

    assert_eq!(hint.min.width, 5);
    assert_eq!(hint.preferred.width, 7);
}

#[test]
fn flex_measure_applies_fixed_percent_fill_and_padding() {
    let flex = Flex::row()
        .padding(Padding::horizontal_vertical(2, 1))
        .gap(1)
        .child(key("fixed"), FlexItem::fixed(10))
        .child(key("percent"), FlexItem::percent(50))
        .child(key("fill"), FlexItem::fill(1));
    let hints = vec![measured((1, 1), (1, 1)), measured((1, 1), (1, 1)), measured((1, 1), (1, 1))];

    let hint = flex.measure(LayoutProposal::at_most(100, 5), &hints);

    assert_eq!(hint.preferred, LayoutSize::new(100, 3));
}

#[test]
fn flex_measure_uses_fit_content_and_legacy_fallback() {
    let flex = Flex::row()
        .child(key("content"), FlexItem::fit_content())
        .child(key("legacy"), FlexItem::fit_content());
    let hints = vec![measured((2, 1), (8, 1)), Some(LayoutSizeHint::legacy())];

    let hint = flex.measure(LayoutProposal::unbounded(), &hints);

    assert_eq!(hint.min.width, 2);
    assert_eq!(hint.preferred.width, 9);
}

#[test]
fn flex_space_between_distributes_non_divisible_spare_left_to_right() {
    let mut flex = Flex::row()
        .gap(1)
        .justify(MainAlign::SpaceBetween)
        .child(key("one"), FlexItem::fixed(2))
        .child(key("two"), FlexItem::fixed(2))
        .child(key("three"), FlexItem::fixed(2));

    lay_out(&mut flex, Rect::new(0, 0, 19, 1));

    assert_eq!(flex.child_rect(&key("one")).unwrap().x, 0);
    assert_eq!(flex.child_rect(&key("two")).unwrap().x, 9);
    assert_eq!(flex.child_rect(&key("three")).unwrap().x, 17);
}

#[test]
fn flex_space_around_distributes_half_spaces_left_to_right() {
    let mut flex = Flex::row()
        .gap(1)
        .justify(MainAlign::SpaceAround)
        .child(key("one"), FlexItem::fixed(2))
        .child(key("two"), FlexItem::fixed(2))
        .child(key("three"), FlexItem::fixed(2));

    lay_out(&mut flex, Rect::new(0, 0, 21, 1));

    assert_eq!(flex.child_rect(&key("one")).unwrap().x, 3);
    assert_eq!(flex.child_rect(&key("two")).unwrap().x, 10);
    assert_eq!(flex.child_rect(&key("three")).unwrap().x, 17);
}

#[test]
fn flex_space_evenly_distributes_spaces_left_to_right() {
    let mut flex = Flex::row()
        .gap(1)
        .justify(MainAlign::SpaceEvenly)
        .child(key("one"), FlexItem::fixed(2))
        .child(key("two"), FlexItem::fixed(2))
        .child(key("three"), FlexItem::fixed(2));

    lay_out(&mut flex, Rect::new(0, 0, 21, 1));

    assert_eq!(flex.child_rect(&key("one")).unwrap().x, 4);
    assert_eq!(flex.child_rect(&key("two")).unwrap().x, 10);
    assert_eq!(flex.child_rect(&key("three")).unwrap().x, 16);
}

#[test]
fn flex_align_self_overrides_container_cross_alignment() {
    let mut flex = Flex::row()
        .align(CrossAlign::End)
        .child(
            key("override"),
            FlexItem::fixed(2).cross_size(CrossSize::Fixed(2)).align_self(CrossAlign::Start),
        )
        .child(key("container"), FlexItem::fixed(2).cross_size(CrossSize::Fixed(2)));

    lay_out(&mut flex, Rect::new(0, 0, 4, 10));

    assert_eq!(flex.child_rect(&key("override")).unwrap().y, 0);
    assert_eq!(flex.child_rect(&key("container")).unwrap().y, 8);
}

#[test]
fn flex_insert_updates_layout_items_and_children_together() {
    let mut flex = Flex::row().child(key("one"), FlexItem::fixed(10));

    assert!(flex.insert(key("two"), FlexItem::fixed(20)));
    lay_out(&mut flex, Rect::new(0, 0, 40, 1));

    assert!(flex.items.iter().any(|child| child.key == "two"));
    assert_eq!(flex.child_rect(&key("two")).unwrap().width, 20);
}

#[test]
fn flex_replace_updates_layout_item_for_existing_child() {
    let mut flex = Flex::row().child(key("one"), FlexItem::fixed(10));

    assert!(flex.replace(&key("one"), FlexItem::fixed(25)));
    lay_out(&mut flex, Rect::new(0, 0, 40, 1));

    assert!(flex.items.iter().any(|child| child.key == "one"));
    assert_eq!(flex.child_rect(&key("one")).unwrap().width, 25);
}

#[test]
fn flex_remove_updates_layout_items_and_children_together() {
    let mut flex = Flex::row()
        .child(key("one"), FlexItem::fixed(10))
        .child(key("two"), FlexItem::fixed(20));

    assert!(flex.remove(&key("one")));
    lay_out(&mut flex, Rect::new(0, 0, 40, 1));

    assert!(!flex.items.iter().any(|child| child.key == "one"));
    assert!(flex.child_rect(&key("one")).is_none());
    assert_eq!(flex.child_rect(&key("two")).unwrap().x, 0);
}

#[test]
fn flex_large_fixed_lengths_do_not_overflow() {
    let mut flex = Flex::row()
        .child(key("one"), FlexItem::fixed(50_000))
        .child(key("two"), FlexItem::fixed(50_000));

    lay_out(&mut flex, Rect::new(0, 0, u16::MAX, 1));

    assert_eq!(flex.child_rect(&key("one")).unwrap().width, 50_000);
    assert_eq!(flex.child_rect(&key("two")).unwrap().x, 50_000);
    assert_eq!(flex.child_rect(&key("two")).unwrap().width, 15_535);
}

#[test]
fn flex_large_fill_weights_do_not_overflow() {
    let mut flex = Flex::row()
        .child(key("one"), FlexItem::fill(u16::MAX))
        .child(key("two"), FlexItem::fill(u16::MAX))
        .child(key("three"), FlexItem::fill(u16::MAX));

    lay_out(&mut flex, Rect::new(0, 0, 99, 1));

    assert_eq!(flex.child_rect(&key("one")).unwrap().width, 33);
    assert_eq!(flex.child_rect(&key("two")).unwrap().width, 33);
    assert_eq!(flex.child_rect(&key("three")).unwrap().width, 33);
}

#[test]
fn flex_gap_only_overflow_records_diagnostic() {
    let mut flex = Flex::row()
        .gap(2)
        .child(key("one"), FlexItem::fixed(0))
        .child(key("two"), FlexItem::fixed(0));

    let overflow = lay_out(&mut flex, Rect::new(0, 0, 1, 1));

    assert_eq!(overflow, Some((2, 1)));
}

#[test]
fn flex_fit_content_uses_measured_preferred_main_size() {
    let mut flex = Flex::row()
        .child(key("content"), FlexItem::fit_content())
        .child(key("fill"), FlexItem::fill(1));
    let main = vec![measured((2, 1), (8, 1)), Some(LayoutSizeHint::legacy())];

    flex.layout(Rect::new(0, 0, 20, 1), &main, &legacy(2));

    assert_eq!(flex.child_rect(&key("content")).unwrap().width, 8);
    assert_eq!(flex.child_rect(&key("fill")).unwrap().width, 12);
}

#[test]
fn flex_fit_content_legacy_child_uses_visible_fallback() {
    let mut flex = Flex::row().child(key("legacy"), FlexItem::content());

    lay_out(&mut flex, Rect::new(0, 0, 20, 1));

    assert_eq!(flex.child_rect(&key("legacy")).unwrap().width, 1);
}

#[test]
fn flex_shrink_fit_content_distributes_fairly_in_rounds() {
    let mut flex = Flex::row()
        .child(key("one"), FlexItem::fit_content())
        .child(key("two"), FlexItem::fit_content());
    let main = vec![measured((6, 1), (10, 1)), measured((6, 1), (8, 1))];

    flex.layout(Rect::new(0, 0, 13, 1), &main, &legacy(2));

    assert_eq!(flex.child_rect(&key("one")).unwrap().width, 7);
    assert_eq!(flex.child_rect(&key("two")).unwrap().width, 6);
}

#[test]
fn spare_spread_hands_out_every_cell_evenly() {
    let shares = distribute_spare(10, 4);
    assert_eq!(shares, vec![3, 3, 2, 2]);
    assert_eq!(shares.iter().sum::<u32>(), 10);
    assert!(distribute_spare(7, 0).is_empty());
}

#[test]
fn spare_is_added_to_each_gap() {
    let mut spaces = vec![1, 1, 1];
    add_distributed_spare(&mut spaces, 5);
    assert_eq!(spaces, vec![3, 3, 2]);
}

#[test]
fn justify_start_and_end_place_the_spare() {
    let start = justify_spaces(MainAlign::Start, 3, 1, 6);
    assert_eq!(start.leading, 0);
    assert_eq!(start.between, vec![1, 1]);
    let end = justify_spaces(MainAlign::End, 3, 1, 6);
    assert_eq!(end.leading, 6);
    let center = justify_spaces(MainAlign::Center, 3, 1, 7);
    assert_eq!(center.leading, 3);
}

#[test]
fn separator_slots_count_gaps_between_children() {
    assert_eq!(separator_slots(true, 4), 3);
    assert_eq!(separator_slots(true, 0), 0);
    assert_eq!(separator_slots(false, 4), 0);
}

#[test]
fn try_child_refuses_a_repeated_key() {
    let flex = Flex::row().child(key("one"), FlexItem::fixed(1));
    let refused = flex.try_child(key("one"), FlexItem::fixed(2));
    let flex = refused.unwrap_err();
    assert_eq!(flex.items.len(), 1);
    let flex = flex.try_child(key("two"), FlexItem::fixed(2)).unwrap();
    assert_eq!(flex.items.len(), 2);
}

#[test]
fn default_flex_item_sizes_to_its_content() {
    assert_eq!(FlexItem::default(), FlexItem::fit_content());
}

fn shrink_child(name: &str, item: FlexItem) -> FlexChild {
    FlexChild { key: key(name), item }
}

#[test]
fn shrinking_pays_the_debt_fairly_and_stops_at_minimums() {
    let items = vec![
        shrink_child("a", FlexItem::fit_content()),
        shrink_child("b", FlexItem::fixed(5)),
        shrink_child("c", FlexItem::fit_content()),
        shrink_child("d", FlexItem::fit_content()),
    ];
    let minimums = vec![2, 0, 9, 1];
    let mut bases = vec![10, 5, 10, 4];
    // 29 cells into 20: nine to give up; room is 8 + 1 + 3 = 12.
    shrink_fit_content(&items, &mut bases, &minimums, 20);
    assert_eq!(bases, vec![5, 5, 9, 1]);
    assert_eq!(bases.iter().sum::<u32>(), 20);

    // More debt than room: every item ends at its minimum and the rest stays unpaid.
    let mut tight = vec![10, 5, 10, 4];
    shrink_fit_content(&items, &mut tight, &minimums, 3);
    assert_eq!(tight, vec![2, 5, 9, 1]);
}
