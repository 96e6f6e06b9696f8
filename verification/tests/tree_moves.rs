use tui_components::list_control::ListControlEvent;
use tui_components::reorder::{reorder_start, OverlayPosition, ReorderKey, ReorderStart, ReorderStep};
use tui_components::keys::{Key, KeyEvent, KeyModifiers};
use tui_components::tree_reorder::{
    extend_tree_selection, flat_pick_action, sort_by_siblings, toggle_tree_selection, tree_pick_action, PickAction,
    TreeBlockMove, TreeRows, TreeSelection,
};

fn tree(rows: &[(u64, Option<u64>)]) -> TreeRows {
    TreeRows { ids: rows.iter().map(|row| row.0).collect(), parents: rows.iter().map(|row| row.1).collect() }
}

fn roots(count: u64) -> TreeRows {
    tree(&(1..=count).map(|id| (id, None)).collect::<Vec<_>>())
}

/// Ctrl-Down from `start`, then Ctrl-Space (or a plain Space) on the row reached.
fn pick_two(rows: &TreeRows, start: u64) -> (TreeSelection, u64) {
    let (selection, highlighted) = extend_tree_selection(None, rows, start, true, false);
    let highlighted = highlighted.expect("row is shown");
    let selection = toggle_tree_selection(selection, rows, highlighted).expect("two rows are picked");
    (selection, highlighted)
}

fn tree_block_move_control() -> (TreeRows, TreeBlockMove) {
    let rows = roots(3);
    let (selection, highlighted) = pick_two(&rows, 1);
    let (block, _) = TreeBlockMove::begin(&rows, &selection, Some(highlighted)).expect("block move starts");
    (rows, block)
}

#[test]
fn tree_block_move_supports_page_and_edge_navigation_keys() {
    // Home, gg, Ctrl-U, PageUp, End, G
    for (keys, expected_target) in [
        (vec![ReorderKey::Top], 0),
        (vec![ReorderKey::TopPrefix, ReorderKey::TopPrefix], 0),
        (vec![ReorderKey::PageUp], 0),
        (vec![ReorderKey::PageUp], 0),
        (vec![ReorderKey::Bottom], 1),
        (vec![ReorderKey::Bottom], 1),
    ] {
        let (rows, mut block) = tree_block_move_control();

        for key in keys {
            block.handle_key(&rows, key, false, true, 1);
        }

        assert_eq!(block.sibling_index, expected_target);
    }
}

#[test]
fn block_move_commit_and_cancel_clear_reorder_state() {
    for (finish, step) in [(ReorderKey::Enter, ReorderStep::Commit), (ReorderKey::Cancel, ReorderStep::Cancel)] {
        let (rows, mut block) = tree_block_move_control();

        assert_eq!(block.handle_key(&rows, finish, false, true, 1), (step, None));
    }
}

#[test]
fn one_item_tree_range_consumes_block_commands() {
    // Ctrl-M and a plain Space, with one row picked
    assert_eq!(reorder_start(None, Some(1), true, false, true, false), ReorderStart::TreeSingle);
    assert_eq!(reorder_start(None, Some(1), false, true, true, false), ReorderStart::TreeSingle);
}

#[test]
fn tree_block_move_h_and_l_reparent_selected_roots() {
    let outdent_rows = tree(&[(1, None), (2, Some(1)), (3, Some(1)), (4, None)]);
    let (selection, highlighted) = pick_two(&outdent_rows, 2);
    assert_eq!(selection.selected, vec![2, 3]);
    let (mut outdent, _) = TreeBlockMove::begin(&outdent_rows, &selection, Some(highlighted)).expect("block move starts");
    outdent.handle_key(&outdent_rows, ReorderKey::Outdent, false, true, 1);
    assert_eq!(outdent.parent_id, None);
    outdent.handle_key(&outdent_rows, ReorderKey::LineDown, false, true, 1);
    outdent.handle_key(&outdent_rows, ReorderKey::LineUp, false, true, 1);
    assert_eq!(outdent.handle_key(&outdent_rows, ReorderKey::Enter, false, true, 1).0, ReorderStep::Commit);
    assert_eq!(outdent.selected, vec![2, 3]);
    assert_eq!(outdent.parent_id, None);
    assert_eq!(outdent.sibling_index, 1);

    let indent_rows = roots(3);
    let (selection, highlighted) = pick_two(&indent_rows, 2);
    let (mut indent, _) = TreeBlockMove::begin(&indent_rows, &selection, Some(highlighted)).expect("block move starts");
    assert_eq!(indent.handle_key(&indent_rows, ReorderKey::Indent, false, true, 1), (ReorderStep::Moving, Some(1)));
    assert_eq!(indent.handle_key(&indent_rows, ReorderKey::Enter, false, true, 1).0, ReorderStep::Commit);
    assert_eq!(indent.parent_id, Some(1));
    assert_eq!(indent.sibling_index, 0);
}

#[test]
fn tree_block_indent_expands_collapsed_target_until_commit_or_cancel() {
    let rows = tree(&[(1, None), (4, Some(1)), (2, None), (3, None)]);
    let (selection, highlighted) = pick_two(&rows, 2);
    let (mut block, _) = TreeBlockMove::begin(&rows, &selection, Some(highlighted)).expect("block move starts");

    let (_, expand) = block.handle_key(&rows, ReorderKey::Indent, false, true, 1);

    assert_eq!(expand, Some(1));
    assert_eq!(block.parent_id, Some(1));
    assert_eq!(block.sibling_index, 1);
    assert_eq!(block.handle_key(&rows, ReorderKey::Cancel, false, true, 1).0, ReorderStep::Cancel);
    assert_eq!(block.cancelled_event(), ListControlEvent::TreeBlockMoveCancelled { row_ids: vec![2, 3] });
}

#[test]
fn tree_ctrl_navigation_selects_the_origin_and_space_toggles_current_siblings() {
    let rows = roots(4);
    let (selection, highlighted) = extend_tree_selection(None, &rows, 2, true, false);
    let (selection, highlighted) = extend_tree_selection(selection, &rows, highlighted.unwrap(), true, false);
    let highlighted = highlighted.unwrap();
    let selection = toggle_tree_selection(selection, &rows, highlighted).expect("rows are picked");

    assert_eq!(highlighted, 4);
    assert_eq!(selection.selected, vec![2, 4]);

    let (mut block, _) = TreeBlockMove::begin(&rows, &selection, Some(highlighted)).expect("block move starts");
    assert_eq!(block.handle_key(&rows, ReorderKey::Enter, false, true, 1).0, ReorderStep::Commit);
    assert_eq!(block.selected, vec![2, 4]);
    assert_eq!(block.parent_id, None);
    assert_eq!(block.sibling_index, 2);
}

#[test]
fn tree_shift_selection_stays_within_sibling_parent() {
    let rows = tree(&[(1, None), (2, Some(1)), (3, Some(1)), (4, None)]);

    let (selection, highlighted) = extend_tree_selection(None, &rows, 2, true, true);

    assert_eq!(selection.expect("shift starts selection").selected, vec![2, 3]);
    assert_eq!(highlighted, Some(3));
}

#[test]
fn shift_range_runs_from_its_anchor_and_switching_mode_starts_over() {
    let rows = roots(5);
    let (selection, highlighted) = extend_tree_selection(None, &rows, 3, true, true);
    let (selection, highlighted) = extend_tree_selection(selection, &rows, highlighted.unwrap(), true, true);
    let range = selection.clone().expect("range is picked");
    assert_eq!(range.selected, vec![3, 4, 5]);
    assert_eq!(range.anchor, Some(3));
    assert_eq!(highlighted, Some(5));

    let (selection, _) = extend_tree_selection(selection, &rows, 5, false, false);
    let picked = selection.expect("a new picking starts");
    assert_eq!(picked.selected, vec![5]);
    assert!(!picked.range_mode);
}

#[test]
fn toggling_the_last_picked_row_ends_the_picking() {
    let rows = roots(3);
    let selection = toggle_tree_selection(None, &rows, 2);
    assert_eq!(selection.clone().expect("one row is picked").selected, vec![2]);
    assert_eq!(toggle_tree_selection(selection, &rows, 2), None);
    assert_eq!(toggle_tree_selection(None, &rows, 9), None);
}

#[test]
fn picked_rows_sort_into_sibling_order() {
    assert_eq!(sort_by_siblings(&vec![4, 9, 1], &vec![1, 2, 3, 4]), vec![9, 1, 4]);
}

#[test]
fn tree_block_placeholder_follows_the_target() {
    let (rows, mut block) = tree_block_move_control();
    // rows 1 and 2 move, row 3 stays; the block starts after row 2
    assert_eq!(block.overlay_position(&rows), OverlayPosition::Before(3));
    block.handle_key(&rows, ReorderKey::Bottom, false, true, 1);
    assert_eq!(block.overlay_position(&rows), OverlayPosition::After(3));
    block.handle_key(&rows, ReorderKey::Top, false, true, 1);
    assert_eq!(block.overlay_position(&rows), OverlayPosition::Before(3));
}

#[test]
fn moving_across_levels_needs_permission_and_a_parent() {
    let (rows, mut block) = tree_block_move_control();
    let before = block.clone();
    block.handle_key(&rows, ReorderKey::Outdent, false, false, 1);
    assert_eq!(block, before);
    block.handle_key(&rows, ReorderKey::Outdent, false, true, 1);
    assert_eq!(block, before);
}

#[test]
fn plain_data_view_navigation_clears_tree_range_selection() {
    // each key with where it moves by line, if it does
    let navigation_keys = [
        (KeyEvent::plain(Key::Up), Some(false)),
        (KeyEvent::plain(Key::Down), Some(true)),
        (KeyEvent::plain(Key::Left), None),
        (KeyEvent::plain(Key::Right), None),
        (KeyEvent::plain(Key::PageUp), None),
        (KeyEvent::plain(Key::PageDown), None),
        (KeyEvent::plain(Key::Home), None),
        (KeyEvent::plain(Key::End), None),
        (KeyEvent::plain(Key::Char('g')), None),
        (KeyEvent::new(Key::Char('g'), KeyModifiers::shift()), None),
    ];

    for (key, direction) in navigation_keys {
        assert_eq!(tree_pick_action(key, direction, true, true, Some(true)), PickAction::ClearAndPass, "{key:?}");
    }
}

#[test]
fn escape_clears_tree_selection_after_it_becomes_unavailable() {
    assert_eq!(tree_pick_action(KeyEvent::plain(Key::Esc), None, false, false, Some(true)), PickAction::Clear);
    assert_eq!(tree_pick_action(KeyEvent::plain(Key::Esc), None, false, true, None), PickAction::Pass);
}

#[test]
fn picking_keys_toggle_and_extend() {
    let ctrl_space = KeyEvent::new(Key::Char(' '), KeyModifiers::control());
    let space = KeyEvent::plain(Key::Char(' '));
    let shift_down = KeyEvent::new(Key::Down, KeyModifiers::shift());
    let ctrl_down = KeyEvent::new(Key::Down, KeyModifiers::control());

    assert_eq!(tree_pick_action(ctrl_space, None, false, true, None), PickAction::Toggle);
    assert_eq!(tree_pick_action(space, None, false, true, Some(false)), PickAction::Toggle);
    assert_eq!(tree_pick_action(space, None, false, true, Some(true)), PickAction::Pass);
    assert_eq!(tree_pick_action(space, None, false, true, None), PickAction::Pass);
    assert_eq!(tree_pick_action(shift_down, Some(true), true, true, Some(true)), PickAction::Extend { forward: true, range: true });
    assert_eq!(tree_pick_action(ctrl_down, Some(true), true, true, Some(false)), PickAction::Extend { forward: true, range: false });
    assert_eq!(tree_pick_action(ctrl_space, None, false, false, None), PickAction::Pass);

    // in a flat list only Shift keeps a picking across a moving key
    assert_eq!(flat_pick_action(shift_down, Some(true), true, true, Some(true)), PickAction::Extend { forward: true, range: true });
    assert_eq!(flat_pick_action(ctrl_down, Some(true), true, true, Some(false)), PickAction::ClearAndPass);
    assert_eq!(flat_pick_action(ctrl_down, Some(true), false, true, Some(false)), PickAction::Extend { forward: true, range: false });
    assert_eq!(flat_pick_action(KeyEvent::plain(Key::Down), Some(true), false, true, None), PickAction::Pass);
}
