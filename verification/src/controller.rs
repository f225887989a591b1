//! The layout controller: owns the item registry, runs full
//! pack → space → place passes, and decides on resize events whether a
//! re-layout is needed at all.

use vstd::prelude::*;
use crate::item::{DisplayItem, widths_of, items_inv};
use crate::pack::{pack, pack_spec, rows_view, lemma_partition_count};
use crate::place::{
    place_rows, PlacementCommand, CommandKind, coords_of, layout_positions, registry_after_pass,
};
use vstd::arithmetic::mul::{lemma_mul_inequality, lemma_mul_nonnegative};

verus! {

/// Fixed layout configuration: the shared row height and the flat top
/// margin added to every row's y position.
#[derive(Clone, Copy, Debug, PartialEq, Eq, Structural)]
pub struct LayoutConfig {
    /// Height shared by all rows (every item was decoded at this height).
    pub row_height: i32,
    /// Flat top margin added once to each row's y position.
    pub row_spacing: i32,
}

/// A viewport size; a resize event re-lays out only when it differs from
/// the last-recorded one.
#[derive(Clone, Copy, Debug, PartialEq, Eq, Structural)]
pub struct ViewportDimensions {
    /// Viewport width — the maximum row width for packing.
    pub width: i32,
    /// Viewport height (recorded to detect no-op resizes).
    pub height: i32,
}

/// The outcome of one full layout pass: one placement command per item and
/// the logical content size for the scrollable container.
pub struct LayoutResult {
    /// One place-or-move command per registry item, in registry order.
    pub commands: Vec<PlacementCommand>,
    /// Logical content width: the row bound the pass used.
    pub container_width: i32,
    /// Logical content height: row count times row height.
    pub container_height: i32,
}

/// The number of rows packing `widths` under `max_width` produces.
pub open spec fn row_count_of(widths: Seq<int>, max_width: int) -> int {
    pack_spec(widths, max_width).len() as int
}

/// The container height after a pass: row count times row height.
pub open spec fn container_height_of(widths: Seq<int>, max_width: int, row_height: int) -> int {
    row_count_of(widths, max_width) * row_height
}

/// Owns the ordered item registry and the last-observed viewport size, and
/// orchestrates layout passes over them.
pub struct LayoutController {
    items: Vec<DisplayItem>,
    config: LayoutConfig,
    last_dimensions: ViewportDimensions,
}

impl LayoutController {
    /// The registry contents, in order.
    pub closed spec fn items_seq(self) -> Seq<DisplayItem> {
        self.items@
    }

    /// The fixed configuration.
    pub closed spec fn config_of(self) -> LayoutConfig {
        self.config
    }

    /// The last-recorded viewport dimensions.
    pub closed spec fn dims_of(self) -> ViewportDimensions {
        self.last_dimensions
    }

    /// Well-formedness: a non-negative configuration, a well-formed
    /// registry, and a registry small enough that every row's y position
    /// fits the coordinate type.
    pub open spec fn wf(self) -> bool {
        &&& self.config_of().row_height >= 0
        &&& self.config_of().row_spacing >= 0
        &&& items_inv(self.items_seq())
        &&& self.items_seq().len() * self.config_of().row_height as int
            + self.config_of().row_spacing as int <= i32::MAX as int
    }

    /// What one pass over registry `items` at row bound `max_width` reports:
    /// one command per item in registry order, carrying exactly the
    /// coordinates of the packed layout, `Place` for items never placed
    /// before and `Move` for the rest, and the container sized to the row
    /// bound by the total row height.
    pub open spec fn pass_result(
        items: Seq<DisplayItem>,
        config: LayoutConfig,
        max_width: int,
        r: LayoutResult,
    ) -> bool {
        &&& r.commands@.len() == items.len()
        &&& coords_of(r.commands@) == layout_positions(
            widths_of(items),
            max_width,
            config.row_height as int,
            config.row_spacing as int,
        )
        &&& forall|j: int| 0 <= j < items.len() ==> (#[trigger] r.commands@[j]).item == j
        &&& forall|j: int|
            0 <= j < items.len() ==> (#[trigger] r.commands@[j]).kind == (if items[j].placed {
                CommandKind::Move
            } else {
                CommandKind::Place
            })
        &&& r.container_width as int == max_width
        &&& r.container_height as int == container_height_of(
            widths_of(items),
            max_width,
            config.row_height as int,
        )
    }

    /// Creates a controller with an empty registry.
    pub fn new(config: LayoutConfig, initial: ViewportDimensions) -> (c: LayoutController)
        requires
            config.row_height >= 0,
            config.row_spacing >= 0,
        ensures
            c.wf(),
            c.items_seq() == Seq::<DisplayItem>::empty(),
            c.config_of() == config,
            c.dims_of() == initial,
    {
        let c = LayoutController { items: Vec::new(), config, last_dimensions: initial };
        proof {
            assert(c.items@ =~= Seq::<DisplayItem>::empty());
            assert(widths_of(c.items@) =~= Seq::<int>::empty());
            assert(crate::sums::sum_seq(Seq::<int>::empty()) == 0);
            assert(c.items@.len() * config.row_height as int == 0) by (nonlinear_arith)
                requires c.items@.len() == 0;
        }
        c
    }

    /// The number of items in the registry.
    pub fn item_count(&self) -> (n: usize)
        ensures
            n == self.items_seq().len(),
    {
        self.items.len()
    }

    /// Read-only access to the item at `index`.
    pub fn item_at(&self, index: usize) -> (it: &DisplayItem)
        requires
            index < self.items_seq().len(),
        ensures
            *it == self.items_seq()[index as int],
    {
        &self.items[index]
    }

    /// The last-recorded viewport dimensions.
    pub fn viewport(&self) -> (d: ViewportDimensions)
        ensures
            d == self.dims_of(),
    {
        self.last_dimensions
    }

    /// Runs one full pack → space → place pass over the registry at the
    /// current viewport width: packs the items into rows, spaces each row
    /// evenly, issues one place-or-move command per item, marks every item
    /// placed, and reports the container size (viewport width by total row
    /// height).
    pub fn run_layout_pass(&mut self) -> (r: LayoutResult)
        requires
            old(self).wf(),
        ensures
            final(self).wf(),
            registry_after_pass(old(self).items_seq(), final(self).items_seq()),
            final(self).config_of() == old(self).config_of(),
            final(self).dims_of() == old(self).dims_of(),
            Self::pass_result(
                old(self).items_seq(),
                old(self).config_of(),
                old(self).dims_of().width as int,
                r,
            ),
    {
        let ghost w = widths_of(old(self).items_seq());
        let max_width = self.last_dimensions.width;
        let row_height = self.config.row_height;
        let row_spacing = self.config.row_spacing;
        let rows = pack(&self.items, max_width);
        let cmds = place_rows(&mut self.items, &rows, max_width, row_height, row_spacing);
        let nrows = rows.len();
        proof {
            lemma_partition_count(rows_view(rows@), 0, old(self).items_seq().len() as int);
            assert(nrows as int == row_count_of(w, max_width as int));
            assert(nrows <= old(self).items_seq().len());
            // the registry after the pass keeps all widths and heights
            assert(widths_of(self.items@) =~= w);
        }
        let container_height: i32 = if row_height == 0 {
            proof {
                assert(nrows as int * 0 == 0) by (nonlinear_arith);
            }
            0
        } else {
            let ghost n = old(self).items_seq().len() as int;
            proof {
                assert(n <= n * (row_height as int)) by (nonlinear_arith)
                    requires n >= 0 && row_height >= 1;
                lemma_mul_inequality(nrows as int, n, row_height as int);
                lemma_mul_nonnegative(nrows as int, row_height as int);
            }
            (nrows as i32) * row_height
        };
        LayoutResult { commands: cmds, container_width: max_width, container_height }
    }

    /// Clears and rebuilds the registry from freshly loaded items, then runs
    /// one unconditional full pass: a directory reload always re-lays out,
    /// whether or not the viewport changed.
    pub fn reload(&mut self, new_items: Vec<DisplayItem>) -> (r: LayoutResult)
        requires
            old(self).wf(),
            items_inv(new_items@),
            new_items@.len() * old(self).config_of().row_height as int
                + old(self).config_of().row_spacing as int <= i32::MAX as int,
        ensures
            final(self).wf(),
            registry_after_pass(new_items@, final(self).items_seq()),
            final(self).config_of() == old(self).config_of(),
            final(self).dims_of() == old(self).dims_of(),
            Self::pass_result(
                new_items@,
                old(self).config_of(),
                old(self).dims_of().width as int,
                r,
            ),
    {
        self.items = new_items;
        self.run_layout_pass()
    }

    /// Handles a viewport resize event.  A dimension pair equal to the
    /// last-recorded one is a no-op: no commands are issued and nothing
    /// changes.  Otherwise the new dimensions are recorded first — a
    /// reentrant resize arriving during the pass would thus be ignored —
    /// and one full pass runs at the new width.
    pub fn handle_resize(&mut self, width: i32, height: i32) -> (r: Option<LayoutResult>)
        requires
            old(self).wf(),
        ensures
            final(self).wf(),
            final(self).config_of() == old(self).config_of(),
            (width == old(self).dims_of().width && height == old(self).dims_of().height) ==> {
                &&& r is None
                &&& final(self).items_seq() == old(self).items_seq()
                &&& final(self).dims_of() == old(self).dims_of()
            },
            !(width == old(self).dims_of().width && height == old(self).dims_of().height) ==> {
                &&& final(self).dims_of() == (ViewportDimensions { width, height })
                &&& registry_after_pass(old(self).items_seq(), final(self).items_seq())
                &&& r matches Some(res) && Self::pass_result(
                    old(self).items_seq(),
                    old(self).config_of(),
                    width as int,
                    res,
                )
            },
    {
        if width == self.last_dimensions.width && height == self.last_dimensions.height {
            None
        } else {
            self.last_dimensions = ViewportDimensions { width, height };
            Some(self.run_layout_pass())
        }
    }

    /// Flips the selection flag of the item at `index` and reports the new
    /// state.  Selection is orthogonal to layout: nothing else changes.
    pub fn toggle_selected(&mut self, index: usize) -> (selected: bool)
        requires
            old(self).wf(),
            index < old(self).items_seq().len(),
        ensures
            final(self).wf(),
            selected == !old(self).items_seq()[index as int].selected,
            final(self).items_seq().len() == old(self).items_seq().len(),
            final(self).items_seq()[index as int] == (DisplayItem {
                selected,
                ..old(self).items_seq()[index as int]
            }),
            forall|j: int|
                0 <= j < old(self).items_seq().len() && j != index
                    ==> final(self).items_seq()[j] == old(self).items_seq()[j],
            final(self).config_of() == old(self).config_of(),
            final(self).dims_of() == old(self).dims_of(),
    {
        let new_state = !self.items[index].selected;
        self.items[index].selected = new_state;
        proof {
            assert(widths_of(self.items@) =~= widths_of(old(self).items_seq()));
        }
        new_state
    }

    /// The registry indices of all currently selected items, in ascending
    /// order: an index appears if and only if its item is selected.
    #[verifier::loop_isolation(false)]
    pub fn selected_indices(&self) -> (idxs: Vec<usize>)
        ensures
            forall|t: int|
                0 <= t < idxs@.len() ==> (#[trigger] idxs@[t]) < self.items_seq().len()
                    && self.items_seq()[idxs@[t] as int].selected,
            forall|t1: int, t2: int| 0 <= t1 < t2 < idxs@.len() ==> idxs@[t1] < idxs@[t2],
            forall|i: int|
                0 <= i < self.items_seq().len() && self.items_seq()[i].selected ==> idxs@.contains(
                    i as usize,
                ),
    {
        let mut idxs: Vec<usize> = Vec::new();
        let mut i: usize = 0;
        while i < self.items.len()
            invariant
                i <= self.items@.len(),
                forall|t: int|
                    0 <= t < idxs@.len() ==> (#[trigger] idxs@[t]) < i
                        && self.items@[idxs@[t] as int].selected,
                forall|t1: int, t2: int| 0 <= t1 < t2 < idxs@.len() ==> idxs@[t1] < idxs@[t2],
                forall|j: int|
                    0 <= j < i && self.items@[j].selected ==> idxs@.contains(j as usize),
            decreases self.items@.len() - i,
        {
            if self.items[i].selected {
                let ghost prev = idxs@;
                idxs.push(i);
                proof {
                    assert(forall|t: int| 0 <= t < prev.len() ==> idxs@[t] == prev[t]);
                    assert(idxs@[idxs@.len() - 1] == i);
                }
            }
            i = i + 1;
        }
        idxs
    }
}

} // verus!
