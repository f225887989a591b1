//! The placement driver: walks the rows in order and issues exactly one
//! place-or-move command per item.

use vstd::prelude::*;
use crate::item::{DisplayItem, widths_of, items_inv, lemma_items_inv_subrange_sum};
use crate::pack::{
    Row, rows_view, pack_spec, rows_partition, lemma_pack_from_partition, lemma_partition_count,
};
use crate::spacing::{
    row_used_width, gap_of, row_x, row_gap, lemma_row_x_step, lemma_row_x_bound,
};
use vstd::arithmetic::mul::lemma_mul_inequality;

verus! {

/// Whether an item receives its first coordinates or moves to new ones.
#[derive(Clone, Copy, Debug, PartialEq, Eq, Structural)]
pub enum CommandKind {
    /// First placement of a not-yet-placed item.
    Place,
    /// Repositioning of an already-placed item.
    Move,
}

/// One instruction to the rendering surface: set the coordinates of the
/// registry item with index `item`.
#[derive(Clone, Copy, Debug, PartialEq, Eq, Structural)]
pub struct PlacementCommand {
    /// Registry index of the item the command addresses.
    pub item: usize,
    /// The item's new x coordinate.
    pub x: i32,
    /// The item's new y coordinate.
    pub y: i32,
    /// Place on first layout, move on every later one.
    pub kind: CommandKind,
}

/// The coordinates a command sequence assigns, in order.
pub open spec fn coords_of(cmds: Seq<PlacementCommand>) -> Seq<(int, int)> {
    cmds.map_values(|c: PlacementCommand| (c.x as int, c.y as int))
}

/// The y position of a row: `row_index * row_height` plus a flat top margin
/// of `row_spacing`, added once per row rather than accumulated.
pub open spec fn row_y(row_index: int, row_height: int, row_spacing: int) -> int {
    row_index * row_height + row_spacing
}

/// The coordinates of the items of the row `start .. end`, sitting at row
/// index `row_index`.
pub open spec fn row_coords(
    widths: Seq<int>,
    start: int,
    end: int,
    max_width: int,
    row_height: int,
    row_spacing: int,
    row_index: int,
) -> Seq<(int, int)> {
    Seq::new(
        (end - start) as nat,
        |k: int|
            (
                row_x(widths, start, end, max_width, start + k),
                row_y(row_index, row_height, row_spacing),
            ),
    )
}

/// The coordinates of all items of `rows`, row by row, the first row sitting
/// at row index `row_index`.
pub open spec fn rows_coords(
    widths: Seq<int>,
    rows: Seq<(int, int)>,
    max_width: int,
    row_height: int,
    row_spacing: int,
    row_index: int,
) -> Seq<(int, int)>
    decreases rows.len(),
{
    if rows.len() == 0 {
        Seq::empty()
    } else {
        row_coords(widths, rows[0].0, rows[0].1, max_width, row_height, row_spacing, row_index)
            + rows_coords(
            widths,
            rows.drop_first(),
            max_width,
            row_height,
            row_spacing,
            row_index + 1,
        )
    }
}

/// The coordinates one full layout pass assigns, in item order.
pub open spec fn layout_positions(
    widths: Seq<int>,
    max_width: int,
    row_height: int,
    row_spacing: int,
) -> Seq<(int, int)> {
    rows_coords(
        widths,
        pack_spec(widths, max_width),
        max_width,
        row_height,
        row_spacing,
        0,
    )
}

/// An item as a layout pass leaves it: coordinates assigned, every other
/// field untouched.
pub open spec fn with_placed(it: DisplayItem) -> DisplayItem {
    DisplayItem { placed: true, ..it }
}

/// A pass rewrites the registry to exactly this: the same items, all placed.
pub open spec fn registry_after_pass(before: Seq<DisplayItem>, after: Seq<DisplayItem>) -> bool {
    &&& after.len() == before.len()
    &&& forall|j: int| 0 <= j < before.len() ==> #[trigger] after[j] == with_placed(before[j])
}

/// Law: the layout pass is idempotent in its coordinates.  A pass changes
/// the registry only by setting `placed`, and coordinates depend on the item
/// widths alone, so an immediately repeated pass over the unchanged registry
/// and the same row bound assigns every item the same (x, y) again.
pub proof fn lemma_pass_idempotent(
    before: Seq<DisplayItem>,
    after: Seq<DisplayItem>,
    max_width: int,
    row_height: int,
    row_spacing: int,
)
    requires
        registry_after_pass(before, after),
    ensures
        layout_positions(widths_of(after), max_width, row_height, row_spacing)
            == layout_positions(widths_of(before), max_width, row_height, row_spacing),
{
    assert(widths_of(after) =~= widths_of(before));
}

/// Places the items of the single row `s .. e`, sitting at vertical position
/// `y`: appends one command per item, in item order, and marks each item
/// placed.  The cursor starts one gap in and advances by item width plus gap.
#[verifier::loop_isolation(false)]
fn place_one_row(
    items: &mut Vec<DisplayItem>,
    cmds: &mut Vec<PlacementCommand>,
    s: usize,
    e: usize,
    max_width: i32,
    y: i32,
)
    requires
        items_inv(old(items)@),
        s < e,
        e <= old(items)@.len(),
        old(cmds)@.len() == s as int,
    ensures
        final(items)@.len() == old(items)@.len(),
        forall|j: int| s <= j < e ==> #[trigger] final(items)@[j] == with_placed(old(items)@[j]),
        forall|j: int|
            0 <= j < old(items)@.len() && !(s <= j < e) ==> #[trigger] final(items)@[j] == old(
                items,
            )@[j],
        final(cmds)@.len() == e as int,
        forall|j: int| 0 <= j < s ==> #[trigger] final(cmds)@[j] == old(cmds)@[j],
        forall|j: int| s <= j < e ==> (#[trigger] final(cmds)@[j]).item == j,
        forall|j: int|
            s <= j < e ==> (#[trigger] final(cmds)@[j]).kind == (if old(items)@[j].placed {
                CommandKind::Move
            } else {
                CommandKind::Place
            }),
        forall|j: int|
            s <= j < e ==> (#[trigger] final(cmds)@[j]).x as int == row_x(
                widths_of(old(items)@),
                s as int,
                e as int,
                max_width as int,
                j,
            ) && final(cmds)@[j].y == y,
{
    let ghost w = widths_of(old(items)@);
    let row = Row { start: s, end: e };
    let g = row_gap(items, &row, max_width);
    let gap = g.0;
    let start_x = g.1;
    proof {
        assert(w.subrange(s as int, s as int) =~= Seq::<int>::empty());
        assert(gap as int * (s as int - s as int + 1) == gap as int) by (nonlinear_arith);
        assert(start_x as int == row_x(w, s as int, e as int, max_width as int, s as int));
    }
    let mut pos_x = start_x;
    let mut k: usize = s;
    while k < e
        invariant
            s <= k <= e,
            pos_x as int == row_x(w, s as int, e as int, max_width as int, k as int),
            cmds@.len() == k as int,
            items@.len() == old(items)@.len(),
            forall|j: int| s <= j < k ==> #[trigger] items@[j] == with_placed(old(items)@[j]),
            forall|j: int|
                0 <= j < old(items)@.len() && !(s <= j < k) ==> #[trigger] items@[j] == old(
                    items,
                )@[j],
            forall|j: int| 0 <= j < s ==> #[trigger] cmds@[j] == old(cmds)@[j],
            forall|j: int| s <= j < k ==> (#[trigger] cmds@[j]).item == j,
            forall|j: int|
                s <= j < k ==> (#[trigger] cmds@[j]).kind == (if old(items)@[j].placed {
                    CommandKind::Move
                } else {
                    CommandKind::Place
                }),
            forall|j: int|
                s <= j < k ==> (#[trigger] cmds@[j]).x as int == row_x(
                    w,
                    s as int,
                    e as int,
                    max_width as int,
                    j,
                ) && cmds@[j].y == y,
        decreases e - k,
    {
        proof {
            assert(items@[k as int] == old(items)@[k as int]);
            assert(w[k as int] == old(items)@[k as int].width as int);
            lemma_items_inv_subrange_sum(old(items)@, s as int, e as int);
            lemma_row_x_step(w, s as int, e as int, max_width as int, k as int);
            lemma_row_x_bound(w, s as int, e as int, max_width as int, k as int);
            lemma_row_x_bound(w, s as int, e as int, max_width as int, k as int + 1);
        }
        let wi = items[k].width;
        let was_placed = items[k].placed;
        let kind = if was_placed {
            CommandKind::Move
        } else {
            CommandKind::Place
        };
        cmds.push(PlacementCommand { item: k, x: pos_x, y, kind });
        items[k].placed = true;
        proof {
            assert(items@[k as int] == with_placed(old(items)@[k as int]));
        }
        pos_x = pos_x + wi;
        pos_x = pos_x + gap;
        k = k + 1;
    }
}

/// Walks the rows in order and issues exactly one command per item: `Place`
/// with first coordinates for an item never placed before, `Move` otherwise;
/// afterwards every item is marked placed.  Row `r` sits at
/// `y = r * row_height + row_spacing`; within a row the cursor starts one
/// gap in and advances by item width plus gap.
#[verifier::loop_isolation(false)]
pub fn place_rows(
    items: &mut Vec<DisplayItem>,
    rows: &Vec<Row>,
    max_width: i32,
    row_height: i32,
    row_spacing: i32,
) -> (cmds: Vec<PlacementCommand>)
    requires
        items_inv(old(items)@),
        rows_view(rows@) == pack_spec(widths_of(old(items)@), max_width as int),
        row_height >= 0,
        row_spacing >= 0,
        old(items)@.len() * row_height + row_spacing <= i32::MAX as int,
    ensures
        registry_after_pass(old(items)@, final(items)@),
        cmds@.len() == old(items)@.len(),
        coords_of(cmds@) == layout_positions(
            widths_of(old(items)@),
            max_width as int,
            row_height as int,
            row_spacing as int,
        ),
        forall|j: int| 0 <= j < cmds@.len() ==> (#[trigger] cmds@[j]).item == j,
        forall|j: int|
            0 <= j < cmds@.len() ==> (#[trigger] cmds@[j]).kind == (if old(items)@[j].placed {
                CommandKind::Move
            } else {
                CommandKind::Place
            }),
{
    let ghost w = widths_of(old(items)@);
    let ghost rv = rows_view(rows@);
    let ghost target = layout_positions(
        w,
        max_width as int,
        row_height as int,
        row_spacing as int,
    );
    let n = items.len();
    proof {
        lemma_pack_from_partition(w, max_width as int, 0, 0, 0);
        lemma_partition_count(rv, 0, w.len() as int);
        assert(rows_partition(rv, 0, n as int));
        assert(rv.len() <= n);
    }
    let mut cmds: Vec<PlacementCommand> = Vec::new();
    let mut r: usize = 0;
    let mut y: i32 = row_spacing;
    let mut k: usize = 0;
    proof {
        assert(rv.skip(0) =~= rv);
        assert(coords_of(cmds@) =~= Seq::<(int, int)>::empty());
        assert(coords_of(cmds@) + rows_coords(
            w,
            rv.skip(0),
            max_width as int,
            row_height as int,
            row_spacing as int,
            0,
        ) =~= target);
    }
    while r < rows.len()
        invariant
            r <= rows@.len(),
            k as int == (if (r as int) < rv.len() {
                rv[r as int].0
            } else {
                n as int
            }),
            k <= n,
            y as int == row_y(r as int, row_height as int, row_spacing as int),
            cmds@.len() == k as int,
            coords_of(cmds@) + rows_coords(
                w,
                rv.skip(r as int),
                max_width as int,
                row_height as int,
                row_spacing as int,
                r as int,
            ) == target,
            items@.len() == n,
            forall|j: int| 0 <= j < k ==> #[trigger] items@[j] == with_placed(old(items)@[j]),
            forall|j: int| k <= j < n ==> #[trigger] items@[j] == old(items)@[j],
            forall|j: int| 0 <= j < k ==> (#[trigger] cmds@[j]).item == j,
            forall|j: int|
                0 <= j < k ==> (#[trigger] cmds@[j]).kind == (if old(items)@[j].placed {
                    CommandKind::Move
                } else {
                    CommandKind::Place
                }),
        decreases rows@.len() - r,
    {
        let row = rows[r];
        let s = row.start;
        let e = row.end;
        let ghost items_before = items@;
        let ghost cmds_before = cmds@;
        let ghost row_cs = row_coords(
            w,
            s as int,
            e as int,
            max_width as int,
            row_height as int,
            row_spacing as int,
            r as int,
        );
        proof {
            assert(rv[r as int] == (s as int, e as int));
            assert((s as int) < (e as int) && (e as int) <= (n as int));
            assert(k == s);
            assert(widths_of(items@) =~= w);
            assert(items_inv(items@));
            assert(rv.skip(r as int)[0] == rv[r as int]);
            assert(rv.skip(r as int).drop_first() =~= rv.skip(r as int + 1));
            assert(rows_coords(
                w,
                rv.skip(r as int),
                max_width as int,
                row_height as int,
                row_spacing as int,
                r as int,
            ) == row_cs + rows_coords(
                w,
                rv.skip(r as int + 1),
                max_width as int,
                row_height as int,
                row_spacing as int,
                r as int + 1,
            ));
        }
        place_one_row(items, &mut cmds, s, e, max_width, y);
        k = e;
        proof {
            // the helper speaks of the registry as it stood at its call;
            // translate its clauses to the pass's original registry
            assert(widths_of(items_before) =~= w);
            assert(forall|j: int|
                s <= j < e ==> #[trigger] items@[j] == with_placed(old(items)@[j]));
            assert(forall|j: int| k <= j < n ==> #[trigger] items@[j] == old(items)@[j]);
            assert(forall|j: int|
                (s as int) <= j < (e as int) ==> (#[trigger] cmds@[j]).x as int == row_x(
                    w,
                    s as int,
                    e as int,
                    max_width as int,
                    j,
                ) && cmds@[j].y == y);
            assert(coords_of(cmds@) =~= coords_of(cmds_before) + row_cs);
            if r as int + 1 < rv.len() {
                assert(rv[r as int].1 == rv[r as int + 1].0);
            } else {
                assert(rv[rv.len() - 1].1 == n as int);
            }
        }
        r = r + 1;
        proof {
            assert((r as int - 1) * (row_height as int) + row_height as int == r as int * (
            row_height as int)) by (nonlinear_arith);
            lemma_mul_inequality(r as int, n as int, row_height as int);
        }
        y = y + row_height;
    }
    proof {
        assert(rv.skip(r as int) =~= Seq::<(int, int)>::empty());
        assert(coords_of(cmds@) + Seq::<(int, int)>::empty() =~= coords_of(cmds@));
    }
    cmds
}

} // verus!
