use gallery_layout::controller::{LayoutConfig, LayoutController, ViewportDimensions};
use gallery_layout::item::DisplayItem;
use gallery_layout::pack::pack;
use gallery_layout::place::{place_rows, CommandKind};
use gallery_layout::spacing::{row_gap, row_used_width_exec};

fn item(name: &str, width: i32) -> DisplayItem {
    DisplayItem::new(String::from(name), width, 198)
}

fn controller_with(widths: &[i32], viewport_width: i32) -> (LayoutController, Vec<(i32, i32)>) {
    let config = LayoutConfig { row_height: 198, row_spacing: 20 };
    let dims = ViewportDimensions { width: viewport_width, height: 1390 };
    let mut ctl = LayoutController::new(config, dims);
    let mut items = Vec::new();
    for (i, w) in widths.iter().enumerate() {
        items.push(item(&format!("img{}", i), *w));
    }
    let result = ctl.reload(items);
    let coords = result.commands.iter().map(|c| (c.x, c.y)).collect();
    (ctl, coords)
}

#[test]
fn three_items_fill_one_row() {
    // widths [300, 300, 300] at max width 1000: a single row, used width 900,
    // gap = 100 / 4 = 25, x positions 25, 350, 675.
    let (ctl, coords) = controller_with(&[300, 300, 300], 1000);
    assert_eq!(ctl.item_count(), 3);
    assert_eq!(coords, vec![(25, 20), (350, 20), (675, 20)]);
}

#[test]
fn two_wide_items_get_a_row_each() {
    // widths [600, 600] at max width 1000: 600 + 600 >= 1000, so the second
    // item starts a new row; each row has gap (1000 - 600) / 2 = 200.
    let config = LayoutConfig { row_height: 198, row_spacing: 20 };
    let dims = ViewportDimensions { width: 1000, height: 1390 };
    let mut ctl = LayoutController::new(config, dims);
    let result = ctl.reload(vec![item("a", 600), item("b", 600)]);
    let coords: Vec<(i32, i32)> = result.commands.iter().map(|c| (c.x, c.y)).collect();
    assert_eq!(coords, vec![(200, 0 * 198 + 20), (200, 1 * 198 + 20)]);
    assert_eq!(result.container_width, 1000);
    assert_eq!(result.container_height, 2 * 198);
}

#[test]
fn zero_items_zero_rows() {
    // an empty registry yields zero rows and a container sized (max_width, 0)
    let config = LayoutConfig { row_height: 198, row_spacing: 20 };
    let dims = ViewportDimensions { width: 1000, height: 1390 };
    let mut ctl = LayoutController::new(config, dims);
    let result = ctl.reload(Vec::new());
    assert_eq!(result.commands.len(), 0);
    assert_eq!(result.container_width, 1000);
    assert_eq!(result.container_height, 0);
}

#[test]
fn oversized_item_keeps_its_own_row() {
    // an item wider than the viewport is never dropped: it sits alone in its
    // row, with the gap clamped to zero, at x = 0
    let (_, coords) = controller_with(&[1500], 1000);
    assert_eq!(coords, vec![(0, 20)]);
}

#[test]
fn oversized_item_between_others() {
    let (_, coords) = controller_with(&[400, 1500, 400], 1000);
    // three rows: [400], [1500], [400]
    assert_eq!(
        coords,
        vec![(300, 20), (0, 198 + 20), (300, 2 * 198 + 20)]
    );
}

#[test]
fn single_item_row_is_centered_by_equal_margins() {
    let (_, coords) = controller_with(&[400], 1000);
    // gap = (1000 - 400) / 2 = 300; x = 300 leaves 300 on the right as well
    assert_eq!(coords, vec![(300, 20)]);
}

#[test]
fn packing_preserves_order_and_loses_nothing() {
    let widths = [250, 250, 250, 250, 250, 250, 250];
    let (ctl, coords) = controller_with(&widths, 1000);
    assert_eq!(coords.len(), widths.len());
    // rows of three (250 * 3 = 750, a fourth would reach 1000), remainder row of one
    assert_eq!(coords[0].1, coords[1].1);
    assert_eq!(coords[1].1, coords[2].1);
    assert_eq!(coords[3].1, coords[4].1);
    assert_eq!(coords[4].1, coords[5].1);
    assert!(coords[2].1 < coords[3].1);
    assert!(coords[5].1 < coords[6].1);
    // x advances strictly within each row: order within rows is kept
    assert!(coords[0].0 < coords[1].0 && coords[1].0 < coords[2].0);
    assert!(coords[3].0 < coords[4].0 && coords[4].0 < coords[5].0);
    assert_eq!(ctl.item_count(), widths.len());
}

#[test]
fn first_pass_places_second_pass_moves() {
    let config = LayoutConfig { row_height: 198, row_spacing: 20 };
    let dims = ViewportDimensions { width: 1000, height: 1390 };
    let mut ctl = LayoutController::new(config, dims);
    let first = ctl.reload(vec![item("a", 300), item("b", 300)]);
    for c in first.commands.iter() {
        assert_eq!(c.kind, CommandKind::Place);
    }
    for i in 0..ctl.item_count() {
        assert!(ctl.item_at(i).placed);
    }
    let second = ctl.run_layout_pass();
    for c in second.commands.iter() {
        assert_eq!(c.kind, CommandKind::Move);
    }
}

#[test]
fn repeated_pass_is_idempotent() {
    // the full pack -> space -> place pass, run twice with unchanged items and
    // unchanged viewport, assigns identical coordinates
    let config = LayoutConfig { row_height: 198, row_spacing: 20 };
    let dims = ViewportDimensions { width: 1000, height: 1390 };
    let mut ctl = LayoutController::new(config, dims);
    let first = ctl.reload(vec![
        item("a", 300),
        item("b", 450),
        item("c", 500),
        item("d", 120),
        item("e", 1200),
        item("f", 80),
    ]);
    let second = ctl.run_layout_pass();
    let c1: Vec<(i32, i32)> = first.commands.iter().map(|c| (c.x, c.y)).collect();
    let c2: Vec<(i32, i32)> = second.commands.iter().map(|c| (c.x, c.y)).collect();
    assert_eq!(c1, c2);
    assert_eq!(first.container_width, second.container_width);
    assert_eq!(first.container_height, second.container_height);
}

#[test]
fn resize_to_same_dimensions_is_a_no_op() {
    let config = LayoutConfig { row_height: 198, row_spacing: 20 };
    let dims = ViewportDimensions { width: 1000, height: 1390 };
    let mut ctl = LayoutController::new(config, dims);
    ctl.reload(vec![item("a", 300)]);
    let r = ctl.handle_resize(1000, 1390);
    assert!(r.is_none());
    assert_eq!(ctl.viewport(), ViewportDimensions { width: 1000, height: 1390 });
}

#[test]
fn resize_to_new_dimensions_relayouts() {
    let config = LayoutConfig { row_height: 198, row_spacing: 20 };
    let dims = ViewportDimensions { width: 1000, height: 1390 };
    let mut ctl = LayoutController::new(config, dims);
    ctl.reload(vec![item("a", 600), item("b", 600)]);
    // at width 1300 both items fit one row: gap = (1300 - 1200) / 3 = 33
    let r = ctl.handle_resize(1300, 1390).expect("changed dimensions must re-layout");
    let coords: Vec<(i32, i32)> = r.commands.iter().map(|c| (c.x, c.y)).collect();
    assert_eq!(coords, vec![(33, 20), (33 + 600 + 33, 20)]);
    assert_eq!(r.container_width, 1300);
    assert_eq!(r.container_height, 198);
    assert_eq!(ctl.viewport(), ViewportDimensions { width: 1300, height: 1390 });
}

#[test]
fn resize_only_in_height_still_relayouts() {
    let config = LayoutConfig { row_height: 198, row_spacing: 20 };
    let dims = ViewportDimensions { width: 1000, height: 1390 };
    let mut ctl = LayoutController::new(config, dims);
    ctl.reload(vec![item("a", 300)]);
    let r = ctl.handle_resize(1000, 900);
    assert!(r.is_some());
    assert_eq!(ctl.viewport(), ViewportDimensions { width: 1000, height: 900 });
}

#[test]
fn commands_address_items_in_registry_order() {
    let (ctl, _) = controller_with(&[300, 400, 500], 1000);
    let mut ctl = ctl;
    let r = ctl.run_layout_pass();
    for (j, c) in r.commands.iter().enumerate() {
        assert_eq!(c.item, j);
    }
}

#[test]
fn toggle_selected_flips_only_one_item() {
    let config = LayoutConfig { row_height: 198, row_spacing: 20 };
    let dims = ViewportDimensions { width: 1000, height: 1390 };
    let mut ctl = LayoutController::new(config, dims);
    ctl.reload(vec![item("a", 300), item("b", 300), item("c", 300)]);
    assert!(ctl.toggle_selected(1));
    assert!(!ctl.item_at(0).selected);
    assert!(ctl.item_at(1).selected);
    assert!(!ctl.item_at(2).selected);
    assert!(!ctl.toggle_selected(1));
    assert!(!ctl.item_at(1).selected);
}

#[test]
fn selected_indices_lists_exactly_the_selected() {
    let config = LayoutConfig { row_height: 198, row_spacing: 20 };
    let dims = ViewportDimensions { width: 1000, height: 1390 };
    let mut ctl = LayoutController::new(config, dims);
    ctl.reload(vec![item("a", 300), item("b", 300), item("c", 300), item("d", 300)]);
    ctl.toggle_selected(3);
    ctl.toggle_selected(0);
    assert_eq!(ctl.selected_indices(), vec![0, 3]);
    ctl.toggle_selected(0);
    assert_eq!(ctl.selected_indices(), vec![3]);
}

#[test]
fn reload_replaces_the_registry() {
    let config = LayoutConfig { row_height: 198, row_spacing: 20 };
    let dims = ViewportDimensions { width: 1000, height: 1390 };
    let mut ctl = LayoutController::new(config, dims);
    ctl.reload(vec![item("a", 300), item("b", 300)]);
    ctl.toggle_selected(0);
    let r = ctl.reload(vec![item("c", 500)]);
    assert_eq!(ctl.item_count(), 1);
    assert_eq!(ctl.item_at(0).path, "c");
    assert!(!ctl.item_at(0).selected);
    assert_eq!(r.commands.len(), 1);
    assert_eq!(r.commands[0].kind, CommandKind::Place);
}

#[test]
fn new_item_starts_unplaced_and_unselected() {
    let it = DisplayItem::new(String::from("fresh"), 640, 198);
    assert_eq!(it.width(), 640);
    assert_eq!(it.height, 198);
    assert!(!it.placed);
    assert!(!it.selected);
}

#[test]
fn pack_boundaries_are_contiguous() {
    let items = vec![item("a", 600), item("b", 600), item("c", 100)];
    let rows = pack(&items, 1000);
    assert_eq!(rows.len(), 2);
    assert_eq!((rows[0].start, rows[0].end), (0, 1));
    assert_eq!((rows[1].start, rows[1].end), (1, 3));
    // every row but the last stays strictly under the bound
    assert!(row_used_width_exec(&items, rows[0].start, rows[0].end) < 1000);
}

#[test]
fn gap_and_start_are_equal_and_floor_divided() {
    let items = vec![item("a", 300), item("b", 300), item("c", 300)];
    let rows = pack(&items, 1000);
    assert_eq!(rows.len(), 1);
    let (gap, start_x) = row_gap(&items, &rows[0], 1000);
    assert_eq!(gap, 25);
    assert_eq!(start_x, 25);
    assert_eq!(row_used_width_exec(&items, rows[0].start, rows[0].end), 900);
    // the last item's right edge plus one trailing gap fits the bound
    let last_x = 675;
    assert!(last_x + 300 + gap <= 1000);
}

#[test]
fn gap_clamps_to_zero_for_oversized_row() {
    let items = vec![item("wide", 1500)];
    let rows = pack(&items, 1000);
    assert_eq!(rows.len(), 1);
    let (gap, start_x) = row_gap(&items, &rows[0], 1000);
    assert_eq!(gap, 0);
    assert_eq!(start_x, 0);
}

#[test]
fn gap_rounding_leaves_remainder_on_the_right() {
    // free space 100 over 3 gaps: 100 / 3 = 33, one leftover pixel stays unused
    let items = vec![item("a", 450), item("b", 450)];
    let rows = pack(&items, 1000);
    let (gap, _) = row_gap(&items, &rows[0], 1000);
    assert_eq!(gap, 33);
}

#[test]
fn place_rows_marks_everything_placed() {
    let mut items = vec![item("a", 300), item("b", 800), item("c", 40)];
    let rows = pack(&items, 1000);
    let cmds = place_rows(&mut items, &rows, 1000, 198, 20);
    assert_eq!(cmds.len(), 3);
    assert!(items.iter().all(|it| it.placed));
    assert_eq!(cmds[0].kind, CommandKind::Place);
}

#[test]
fn zero_width_items_share_one_row() {
    let (_, coords) = controller_with(&[0, 0, 0], 1000);
    // used width 0, gap = 1000 / 4 = 250
    assert_eq!(coords, vec![(250, 20), (500, 20), (750, 20)]);
}

#[test]
fn row_spacing_is_a_flat_offset_not_accumulated() {
    // y = row_index * row_height + row_spacing: the 20 px margin is added
    // once per row, not once more per preceding row
    let (_, coords) = controller_with(&[900, 900, 900], 1000);
    assert_eq!(coords.iter().map(|c| c.1).collect::<Vec<i32>>(), vec![20, 218, 416]);
}

#[test]
fn narrow_viewport_stacks_single_items() {
    let (_, coords) = controller_with(&[300, 300], 300);
    // each 300-wide item reaches the 300 bound alone: one per row, gap 0
    assert_eq!(coords, vec![(0, 20), (0, 218)]);
}
