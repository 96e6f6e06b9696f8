use tui_components::keys::{Key, KeyEvent, KeyModifiers, KeySpec};
use tui_components::list_control::ListControlEvent;
use tui_components::reorder::{
    classify_reorder_key, merge_scope_order, reorder_start, ReorderKeyBindings, scoped_target_index, select_ids, FlatBlockMove, FlatSelection,
    OverlayPosition, ReorderKey, ReorderStart, ReorderStep, RowReorder,
};

fn ranked_ids(count: u64) -> Vec<u64> {
    (0..count).collect()
}

/// Rows 1 and 2 picked as a range from row 1, with the highlight on row 2, and the block move
/// started from there.
fn start_flat_block_move(count: u64) -> FlatBlockMove {
    let selection = FlatSelection { selected: vec![1, 2], anchor: 1, range_mode: true };
    let (block, _) = FlatBlockMove::begin(ranked_ids(count), None, &selection, 2)
        .expect("flat block move should start");
    block
}

#[test]
fn flat_range_ctrl_m_starts_block_move_instead_of_single_reorder() {
    assert_eq!(reorder_start(Some(2), None, true, false, false, true), ReorderStart::FlatBlock);

    let block = start_flat_block_move(5);

    assert_eq!(block.selected, vec![1, 2]);
    assert_eq!(block.target_index, 1);
}

#[test]
fn block_move_start_does_not_start_single_row_reorder() {
    let start = reorder_start(None, Some(2), true, false, true, false);

    assert_eq!(start, ReorderStart::TreeBlock);
    assert_ne!(start, ReorderStart::TreeRow);
    assert_ne!(start, ReorderStart::Row);
}

#[test]
fn flat_block_move_moves_the_pseudo_target_through_unselected_gaps() {
    let mut block = start_flat_block_move(5);

    block.handle_key(ReorderKey::LineDown, false, 1);

    assert_eq!(block.target_index, 2);
}

#[test]
fn flat_block_move_returns_placeholder_before_following_row() {
    let mut block = start_flat_block_move(5);

    block.handle_key(ReorderKey::LineDown, false, 1);
    block.handle_key(ReorderKey::LineUp, false, 1);

    // drawn as 0, 1, 2, the placeholder, 3, 4
    assert_eq!(block.overlay_position(), OverlayPosition::Before(3));
}

#[test]
fn flat_block_move_supports_page_and_edge_navigation_keys() {
    for (keys, expected_target) in [
        // Home, gg, Ctrl-U, PageUp, End, G, Ctrl-D, PageDown
        (vec![ReorderKey::Top], 0),
        (vec![ReorderKey::TopPrefix, ReorderKey::TopPrefix], 0),
        (vec![ReorderKey::PageUp], 0),
        (vec![ReorderKey::PageUp], 0),
        (vec![ReorderKey::Bottom], 3),
        (vec![ReorderKey::Bottom], 3),
        (vec![ReorderKey::PageDown], 2),
        (vec![ReorderKey::PageDown], 2),
    ] {
        let mut block = start_flat_block_move(5);

        for key in keys {
            block.handle_key(key, false, 1);
        }

        assert_eq!(block.target_index, expected_target);
    }
}

#[test]
fn flat_block_move_commit_preserves_selected_source_order() {
    let mut block = start_flat_block_move(5);
    block.handle_key(ReorderKey::LineDown, false, 1);

    assert_eq!(block.handle_key(ReorderKey::Enter, false, 1), ReorderStep::Commit);

    assert_eq!(block.committed_order(), vec![0, 3, 1, 2, 4]);
    assert_eq!(block.committed_event(), ListControlEvent::Reordered { row_ids: vec![0, 3, 1, 2, 4] });
}

#[test]
fn flat_block_move_cancel_keeps_rows_unchanged() {
    let mut block = start_flat_block_move(5);
    block.handle_key(ReorderKey::LineDown, false, 1);

    assert_eq!(block.handle_key(ReorderKey::Cancel, false, 1), ReorderStep::Cancel);

    assert_eq!(block.snapshot, vec![0, 1, 2, 3, 4]);
    assert_eq!(block.cancelled_event(), ListControlEvent::ReorderCancelled { row_id: 2 });
}

#[test]
fn flat_block_start_keeps_zero_selection_single_reorder_and_consumes_one_selection() {
    assert_eq!(reorder_start(None, None, true, false, false, true), ReorderStart::Row);

    assert_eq!(reorder_start(Some(1), None, true, false, false, true), ReorderStart::FlatSingle);
    assert_eq!(reorder_start(Some(1), None, false, true, false, true), ReorderStart::FlatSingle);
}

#[test]
fn reorder_gg_requires_two_presses_and_non_g_interrupts_sequence() {
    let mut reorder = RowReorder::begin(ranked_ids(6), None, 3);

    reorder.handle_key(ReorderKey::TopPrefix, 1);
    assert_eq!(reorder.staged, vec![0, 1, 2, 3, 4, 5]);
    reorder.handle_key(ReorderKey::TopPrefix, 1);
    assert_eq!(reorder.staged, vec![3, 0, 1, 2, 4, 5]);

    reorder.handle_key(ReorderKey::TopPrefix, 1);
    reorder.handle_key(ReorderKey::LineDown, 1);
    assert_eq!(reorder.staged, vec![0, 3, 1, 2, 4, 5]);
    reorder.handle_key(ReorderKey::TopPrefix, 1);
    assert_eq!(reorder.staged, vec![0, 3, 1, 2, 4, 5]);

    assert_eq!(reorder.handle_key(ReorderKey::Cancel, 1), ReorderStep::Cancel);
    let mut reorder = RowReorder::begin(ranked_ids(6), None, 3);
    reorder.handle_key(ReorderKey::TopPrefix, 1);
    assert_eq!(reorder.staged, vec![0, 1, 2, 3, 4, 5]);
}

#[test]
fn reorder_bottom_home_and_end_move_to_edges() {
    // G, Home, End
    for (key, expected) in [
        (ReorderKey::Bottom, vec![0, 1, 3, 4, 2]),
        (ReorderKey::Top, vec![2, 0, 1, 3, 4]),
        (ReorderKey::Bottom, vec![0, 1, 3, 4, 2]),
    ] {
        let mut reorder = RowReorder::begin(ranked_ids(5), None, 2);

        reorder.handle_key(key, 1);

        assert_eq!(reorder.staged, expected);
    }
}

#[test]
fn reorder_page_keys_use_visible_page_step_and_clamp() {
    let page = 3;
    let mut reorder = RowReorder::begin(ranked_ids(10), None, 5);
    reorder.handle_key(ReorderKey::PageUp, page);
    assert_eq!(reorder.staged, vec![0, 1, 5, 2, 3, 4, 6, 7, 8, 9]);
    reorder.handle_key(ReorderKey::PageUp, page);
    assert_eq!(reorder.staged, vec![5, 0, 1, 2, 3, 4, 6, 7, 8, 9]);

    let mut reorder = RowReorder::begin(ranked_ids(10), None, 5);
    reorder.handle_key(ReorderKey::PageDown, page);
    assert_eq!(reorder.staged, vec![0, 1, 2, 3, 4, 6, 7, 8, 5, 9]);
    reorder.handle_key(ReorderKey::PageDown, page);
    assert_eq!(reorder.staged, vec![0, 1, 2, 3, 4, 6, 7, 8, 9, 5]);
}

#[test]
fn unmodified_space_commits_reorder_but_modified_space_does_not() {
    let mut reorder = RowReorder::begin(vec![1, 2], None, 1);

    // a modified Space is no reorder key
    assert_eq!(reorder.handle_key(ReorderKey::Other, 1), ReorderStep::Moving);
    assert_eq!(reorder.handle_key(ReorderKey::Space, 1), ReorderStep::Commit);
    assert_eq!(reorder.committed_event(), ListControlEvent::Reordered { row_ids: vec![1, 2] });
}

#[test]
fn scoped_row_move_passes_only_rows_of_its_scope() {
    // rows 1, 3 and 5 form the scope; the others keep their places
    let mut reorder = RowReorder::begin(ranked_ids(6), Some(vec![1, 3, 5]), 5);
    assert_eq!(reorder.scoped_order(), vec![1, 3, 5]);

    assert!(reorder.move_lines(false, 1));
    assert_eq!(reorder.staged, vec![0, 1, 2, 5, 4, 3]);
    assert_eq!(reorder.scoped_order(), vec![1, 5, 3]);

    assert!(reorder.move_to(0));
    assert_eq!(reorder.staged, vec![0, 5, 2, 1, 4, 3]);
    assert_eq!(reorder.committed_ids(), vec![5, 1, 3]);
    assert!(!reorder.move_to(0));
}

#[test]
fn moving_a_row_back_restores_the_staged_order() {
    let mut reorder = RowReorder::begin(ranked_ids(5), None, 1);

    assert!(reorder.move_to(3));
    assert_eq!(reorder.staged, vec![0, 2, 3, 1, 4]);
    assert!(reorder.move_to(1));
    assert_eq!(reorder.staged, vec![0, 1, 2, 3, 4]);
}

#[test]
fn merging_a_scoped_order_keeps_other_rows_in_place() {
    let full = vec![10, 11, 12, 13, 14];
    assert_eq!(merge_scope_order(&full, &Some(vec![11, 14]), &vec![14, 11]), vec![10, 14, 12, 13, 11]);
    assert_eq!(merge_scope_order(&full, &None, &vec![14, 11]), vec![14, 11]);
}

#[test]
fn picking_ids_keeps_their_order() {
    let ids = vec![4, 1, 3, 2];
    assert_eq!(select_ids(&ids, &vec![2, 4], true), vec![4, 2]);
    assert_eq!(select_ids(&ids, &vec![2, 4], false), vec![1, 3]);
    assert_eq!(scoped_target_index(&ids, &vec![4, 1, 3], &vec![1], 3), 2);
    assert_eq!(scoped_target_index(&ids, &vec![4, 1, 3], &vec![1], 99), 2);
}

#[test]
fn block_moved_within_a_scope_keeps_rows_outside_it() {
    let selection = FlatSelection { selected: vec![3, 5], anchor: 3, range_mode: false };
    let (mut block, overlay) =
        FlatBlockMove::begin(ranked_ids(6), Some(vec![1, 3, 5]), &selection, 5).expect("block should start");
    assert_eq!(overlay, OverlayPosition::Before(3));
    assert_eq!(block.target_index, 1);

    block.handle_key(ReorderKey::Top, false, 1);
    assert_eq!(block.staged_ids(), vec![3, 5, 1]);
    assert_eq!(block.committed_order(), vec![0, 3, 2, 5, 4, 1]);
}

#[test]
fn block_move_needs_every_picked_row_in_scope() {
    let selection = FlatSelection { selected: vec![0, 3], anchor: 0, range_mode: false };
    assert!(FlatBlockMove::begin(ranked_ids(6), Some(vec![1, 3, 5]), &selection, 3).is_none());
    let single = FlatSelection { selected: vec![3], anchor: 3, range_mode: false };
    assert!(FlatBlockMove::begin(ranked_ids(6), None, &single, 3).is_none());
}

#[test]
fn repeated_keys_do_not_move_the_block() {
    let mut block = start_flat_block_move(5);
    assert_eq!(block.handle_key(ReorderKey::Enter, true, 1), ReorderStep::Moving);
    block.handle_key(ReorderKey::LineDown, true, 1);
    assert_eq!(block.target_index, 1);
}

fn reorder_bindings() -> ReorderKeyBindings {
    ReorderKeyBindings {
        reorder: vec![KeySpec::key_with_modifiers(Key::Char('m'), KeyModifiers::control())],
        line_up: vec![KeySpec::key(Key::Up), KeySpec::plain('k')],
        line_down: vec![KeySpec::key(Key::Down), KeySpec::plain('j')],
        page_up: vec![KeySpec::key(Key::PageUp)],
        page_down: vec![KeySpec::key(Key::PageDown)],
        top: vec![KeySpec::key(Key::Home)],
        bottom: vec![KeySpec::key(Key::End), KeySpec::key_with_modifiers(Key::Char('G'), KeyModifiers::shift())],
        top_prefix: vec![KeySpec::plain('g')],
        line_left: vec![KeySpec::key(Key::Left)],
        line_right: vec![KeySpec::key(Key::Right)],
    }
}

#[test]
fn reorder_keys_are_read_in_order_of_precedence() {
    let b = reorder_bindings();
    let ctrl = |c: char| KeyEvent::new(Key::Char(c), KeyModifiers::control());
    assert_eq!(classify_reorder_key(ctrl('m'), &b), ReorderKey::Reorder);
    assert_eq!(classify_reorder_key(KeyEvent::plain(Key::Enter), &b), ReorderKey::Enter);
    assert_eq!(classify_reorder_key(KeyEvent::new(Key::Enter, KeyModifiers::shift()), &b), ReorderKey::Other);
    assert_eq!(classify_reorder_key(KeyEvent::plain(Key::Char(' ')), &b), ReorderKey::Space);
    assert_eq!(classify_reorder_key(KeyEvent::plain(Key::Esc), &b), ReorderKey::Cancel);
    assert_eq!(classify_reorder_key(KeyEvent::new(Key::Esc, KeyModifiers::shift()), &b), ReorderKey::Cancel);
    assert_eq!(classify_reorder_key(ctrl('['), &b), ReorderKey::Cancel);
    assert_eq!(classify_reorder_key(KeyEvent::plain(Key::Char('k')), &b), ReorderKey::LineUp);
    assert_eq!(classify_reorder_key(KeyEvent::plain(Key::Down), &b), ReorderKey::LineDown);
    assert_eq!(classify_reorder_key(KeyEvent::plain(Key::PageUp), &b), ReorderKey::PageUp);
    assert_eq!(classify_reorder_key(KeyEvent::plain(Key::PageDown), &b), ReorderKey::PageDown);
    assert_eq!(classify_reorder_key(KeyEvent::plain(Key::Home), &b), ReorderKey::Top);
    assert_eq!(classify_reorder_key(KeyEvent::new(Key::Char('G'), KeyModifiers::shift()), &b), ReorderKey::Bottom);
    assert_eq!(classify_reorder_key(KeyEvent::plain(Key::Char('g')), &b), ReorderKey::TopPrefix);
    assert_eq!(classify_reorder_key(KeyEvent::plain(Key::Left), &b), ReorderKey::Outdent);
    assert_eq!(classify_reorder_key(KeyEvent::plain(Key::Char('<')), &b), ReorderKey::Outdent);
    assert_eq!(classify_reorder_key(KeyEvent::plain(Key::Right), &b), ReorderKey::Indent);
    assert_eq!(classify_reorder_key(KeyEvent::plain(Key::Char('>')), &b), ReorderKey::Indent);
    assert_eq!(classify_reorder_key(KeyEvent::plain(Key::Char('x')), &b), ReorderKey::Other);
}

#[test]
fn the_reorder_binding_wins_over_other_bindings_of_the_same_key() {
    let mut b = reorder_bindings();
    b.reorder = vec![KeySpec::key(Key::Enter), KeySpec::plain('k')];
    assert_eq!(classify_reorder_key(KeyEvent::plain(Key::Char('k')), &b), ReorderKey::Reorder);
    assert_eq!(classify_reorder_key(KeyEvent::plain(Key::Enter), &b), ReorderKey::Reorder);
}

#[test]
fn shift_lines_pick_the_range_from_the_anchor() {
    let ids: Vec<u64> = vec![0, 1, 2, 3];
    let mut picking = FlatSelection::start(1, true);
    picking.extend_range(&ids, 1, 2);
    assert_eq!(picking.selected, vec![1, 2]);
    picking.extend_range(&ids, 2, 3);
    assert_eq!(picking.selected, vec![1, 2, 3]);
    picking.extend_range(&ids, 3, 0);
    assert_eq!(picking.selected, vec![0, 1]);
    assert_eq!(picking.anchor, 1);
    assert!(picking.range_mode);
}

#[test]
fn control_lines_pick_the_origin_and_control_space_toggles_rows() {
    let ids: Vec<u64> = vec![0, 1, 2, 3, 4];
    let mut picking = FlatSelection::start(1, false);
    picking.move_with_control(1);
    picking.move_with_control(2);
    assert_eq!(picking.selected, vec![1]);
    assert_eq!(picking.toggle(&ids, 3), vec![1, 3]);
    picking.move_with_control(3);
    assert_eq!(picking.toggle(&ids, 4), vec![1, 3, 4]);
    assert_eq!(picking.toggle(&ids, 1), vec![3, 4]);
    assert_eq!(picking.anchor, 1);
    assert!(!picking.range_mode);
    assert!(picking.fits(&ids));
    assert!(!picking.fits(&vec![3]));
}
