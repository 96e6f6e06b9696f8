use tui_components::geometry::{Gap, LayoutProposal, LayoutSize, LayoutSizeHint, Padding, Rect, Separator};
use tui_components::grid::{find_track_location, Grid, GridItem, GridSeparators, GridTrack, SeparatorGlyph, TrackLocation};

fn key(name: &str) -> String {
    name.to_string()
}

/// A child that reports `width` x `height` as both its minimum and preferred size.
fn probe(width: u16, height: u16) -> Option<LayoutSizeHint> {
    Some(LayoutSizeHint::content(width, height))
}

fn lay_out(grid: &mut Grid, area: Rect, hints: &Vec<Option<LayoutSizeHint>>) {
    grid.layout(area, hints, hints, hints);
}

#[test]
fn grid_lays_out_mixed_tracks_with_fit_content() {
    let mut grid = Grid::new()
        .columns(vec![GridTrack::fixed(5), GridTrack::fit_content(), GridTrack::fill(1)])
        .rows(vec![GridTrack::fixed(2), GridTrack::percent(50), GridTrack::fill(1)])
        .gap(1, 1)
        .child(key("fit"), GridItem::new(0, 1))
        .child(key("fill"), GridItem::new(2, 2));

    lay_out(&mut grid, Rect::new(0, 0, 30, 12), &vec![probe(8, 1), probe(1, 1)]);

    assert_eq!(grid.child_rect(&key("fit")), Some(Rect::new(6, 0, 8, 2)));
    assert_eq!(grid.child_rect(&key("fill")), Some(Rect::new(15, 9, 15, 3)));
}

#[test]
fn grid_gaps_and_padding_offset_child_rects() {
    let mut grid = Grid::new()
        .columns(vec![GridTrack::fixed(5), GridTrack::fixed(5)])
        .rows(vec![GridTrack::fixed(2), GridTrack::fixed(2)])
        .gaps(Gap::new(1, 2))
        .padding(Padding { left: 1, right: 3, top: 2, bottom: 4 })
        .child(key("cell"), GridItem::new(1, 1));

    lay_out(&mut grid, Rect::new(0, 0, 20, 12), &vec![probe(5, 2)]);

    assert_eq!(grid.child_rect(&key("cell")), Some(Rect::new(8, 5, 5, 2)));
}

#[test]
fn grid_measure_includes_gaps_and_padding() {
    let grid = Grid::new()
        .columns(vec![GridTrack::fixed(5), GridTrack::fixed(5)])
        .rows(vec![GridTrack::fixed(2), GridTrack::fixed(2)])
        .gaps(Gap::new(1, 2))
        .padding(Padding { left: 1, right: 3, top: 2, bottom: 4 });

    let hint = grid.measure(LayoutProposal::unbounded(), &vec![], &vec![]);

    assert_eq!(hint.preferred, LayoutSize::new(16, 11));
}

#[test]
fn grid_measure_applies_fixed_percent_fill_and_fit_content_tracks() {
    let grid = Grid::new()
        .columns(vec![GridTrack::fixed(5), GridTrack::fit_content(), GridTrack::fill(1)])
        .rows(vec![GridTrack::fixed(2), GridTrack::percent(50), GridTrack::fill(1)])
        .gap(1, 1)
        .child(key("fit"), GridItem::new(0, 1));

    let hints = vec![probe(8, 1)];
    let hint = grid.measure(LayoutProposal::at_most(30, 12), &hints, &hints);

    assert_eq!(hint.preferred, LayoutSize::new(30, 12));
}

#[test]
fn grid_measure_unbounded_fit_content_uses_child_or_legacy_fallback() {
    let grid = Grid::new()
        .columns(vec![GridTrack::fit_content(), GridTrack::fit_content()])
        .rows(vec![GridTrack::fit_content()])
        .gap(1, 0)
        .child(key("measured"), GridItem::new(0, 0))
        .child(key("legacy"), GridItem::new(0, 1));

    let hints = vec![probe(8, 2), Some(LayoutSizeHint::legacy())];
    let hint = grid.measure(LayoutProposal::unbounded(), &hints, &hints);

    assert_eq!(hint.preferred, LayoutSize::new(10, 2));
}

#[test]
fn grid_column_separators_offset_column_tracks() {
    let mut grid = Grid::new()
        .columns(vec![GridTrack::fixed(5), GridTrack::fixed(5)])
        .rows(vec![GridTrack::fixed(2)])
        .separators(GridSeparators::columns(Separator::new()))
        .child(key("right"), GridItem::new(0, 1));

    lay_out(&mut grid, Rect::new(0, 0, 11, 2), &vec![probe(5, 2)]);

    assert_eq!(grid.child_rect(&key("right")).unwrap().x, 6);
    assert_eq!(grid.column_separator_rects, vec![Rect::new(5, 0, 1, 2)]);
}

#[test]
fn grid_row_separators_offset_row_tracks() {
    let mut grid = Grid::new()
        .columns(vec![GridTrack::fixed(5)])
        .rows(vec![GridTrack::fixed(2), GridTrack::fixed(2)])
        .separators(GridSeparators::rows(Separator::new()))
        .child(key("bottom"), GridItem::new(1, 0));

    lay_out(&mut grid, Rect::new(0, 0, 5, 5), &vec![probe(5, 2)]);

    assert_eq!(grid.child_rect(&key("bottom")).unwrap().y, 3);
    assert_eq!(grid.row_separator_rects, vec![Rect::new(0, 2, 5, 1)]);
}

#[test]
fn grid_both_separators_records_intersections() {
    let mut grid = Grid::new()
        .columns(vec![GridTrack::fixed(2), GridTrack::fixed(2)])
        .rows(vec![GridTrack::fixed(1), GridTrack::fixed(1)])
        .separator(Separator::new());

    lay_out(&mut grid, Rect::new(0, 0, 5, 3), &vec![]);

    assert_eq!(grid.column_separator_rects, vec![Rect::new(2, 0, 1, 3)]);
    assert_eq!(grid.row_separator_rects, vec![Rect::new(0, 1, 5, 1)]);
    assert_eq!(grid.intersections, vec![(2, 1)]);
}

#[test]
fn grid_measure_includes_separator_space() {
    let grid = Grid::new()
        .columns(vec![GridTrack::fixed(5), GridTrack::fixed(5)])
        .rows(vec![GridTrack::fixed(2), GridTrack::fixed(2)])
        .separator(Separator::new());

    let hint = grid.measure(LayoutProposal::unbounded(), &vec![], &vec![]);

    assert_eq!(hint.preferred, LayoutSize::new(11, 5));
}

#[test]
fn grid_separators_handle_tiny_areas() {
    let mut grid = Grid::new()
        .columns(vec![GridTrack::fill(1), GridTrack::fill(1)])
        .rows(vec![GridTrack::fill(1), GridTrack::fill(1)])
        .separator(Separator::new());

    lay_out(&mut grid, Rect::new(0, 0, 1, 1), &vec![]);

    assert_eq!(grid.column_separator_rects, vec![Rect::new(0, 0, 1, 1)]);
    assert_eq!(grid.row_separator_rects, vec![Rect::new(0, 0, 1, 1)]);
}

#[test]
fn grid_separators_are_not_rendered_over_spanning_items() {
    let mut grid = Grid::new()
        .columns(vec![GridTrack::fixed(2), GridTrack::fixed(2)])
        .rows(vec![GridTrack::fixed(1)])
        .separators(GridSeparators::columns(Separator::new()))
        .child(key("span"), GridItem::new(0, 0).span(1, 2));
    let area = Rect::new(0, 0, 5, 1);

    lay_out(&mut grid, area, &vec![probe(5, 1)]);

    assert_eq!(grid.separator_glyph_at(area, 2, 0), None);
}

#[test]
fn grid_separators_are_rendered_between_non_spanning_items() {
    let mut grid = Grid::new()
        .columns(vec![GridTrack::fixed(2), GridTrack::fixed(2)])
        .rows(vec![GridTrack::fixed(1)])
        .separators(GridSeparators::columns(Separator::new()))
        .child(key("left"), GridItem::new(0, 0))
        .child(key("right"), GridItem::new(0, 1));
    let area = Rect::new(0, 0, 5, 1);

    lay_out(&mut grid, area, &vec![probe(2, 1), probe(2, 1)]);

    assert_eq!(grid.separator_glyph_at(area, 2, 0), Some(SeparatorGlyph::Vertical));
}

#[test]
fn grid_measure_computes_correct_min_size() {
    let grid = Grid::new()
        .columns(vec![GridTrack::fixed(5), GridTrack::fit_content(), GridTrack::fill(1)])
        .rows(vec![GridTrack::fixed(2), GridTrack::fit_content(), GridTrack::fill(1)])
        .gap(1, 1)
        .padding(Padding::all(1))
        .child(key("fit"), GridItem::new(1, 1));

    let hints = vec![Some(LayoutSizeHint::measured(LayoutSize::new(4, 2), LayoutSize::new(8, 4)))];
    let hint = grid.measure(LayoutProposal::unbounded(), &hints, &hints);
    assert_eq!(hint.min, LayoutSize::new(13, 8));
    assert_eq!(hint.preferred, LayoutSize::new(17, 10));
}

#[test]
fn debug_gallery_grid_rendering() {
    let mut grid = Grid::new()
        .columns(vec![GridTrack::fixed(14), GridTrack::fit_content(), GridTrack::fill(1)])
        .rows(vec![GridTrack::fixed(4), GridTrack::percent(35), GridTrack::fill(1)])
        .gaps(Gap::new(1, 2))
        .separator(Separator::new())
        .padding(Padding::all(1))
        .child(key("filters"), GridItem::new(0, 0))
        .child(key("summary"), GridItem::new(0, 1))
        .child(key("chart"), GridItem::new(0, 2).span(2, 1))
        .child(key("table"), GridItem::new(1, 0).span(2, 2));
    let area = Rect::new(0, 0, 120, 40);

    lay_out(
        &mut grid,
        area,
        &vec![probe(10, 3), probe(18, 3), probe(28, 8), probe(30, 8)],
    );

    assert_eq!(grid.separator_glyph_at(area, 36, 5), Some(SeparatorGlyph::Horizontal));
    assert_eq!(grid.separator_glyph_at(area, 37, 5), Some(SeparatorGlyph::RightJoin));
}

#[test]
fn grid_remove_drops_only_the_named_child() {
    let mut grid = Grid::new()
        .child(key("a"), GridItem::new(0, 0))
        .child(key("b"), GridItem::new(0, 0));
    assert!(grid.remove(&key("a")));
    assert!(!grid.remove(&key("a")));
    assert_eq!(grid.items.len(), 1);
    assert_eq!(grid.items[0].key, "b");
}

#[test]
fn coordinates_fall_inside_tracks_in_gaps_or_outside() {
    let starts: Vec<u16> = vec![2, 6, 9];
    let ends: Vec<u16> = vec![5, 6, 12];
    assert_eq!(find_track_location(1, &starts, &ends), TrackLocation::Outside);
    assert_eq!(find_track_location(2, &starts, &ends), TrackLocation::Inside(0));
    assert_eq!(find_track_location(4, &starts, &ends), TrackLocation::Inside(0));
    assert_eq!(find_track_location(5, &starts, &ends), TrackLocation::Gap(0));
    assert_eq!(find_track_location(6, &starts, &ends), TrackLocation::Gap(1));
    assert_eq!(find_track_location(8, &starts, &ends), TrackLocation::Gap(1));
    assert_eq!(find_track_location(11, &starts, &ends), TrackLocation::Inside(2));
    assert_eq!(find_track_location(12, &starts, &ends), TrackLocation::Outside);
    assert_eq!(find_track_location(3, &vec![], &vec![]), TrackLocation::Outside);
}
