//! The item registry's record type: one decoded image ready for layout.

use vstd::prelude::*;
use crate::sums::{sum_seq, lemma_sum_subrange_bound};

verus! {

/// One decoded image, ready to be laid out.  The width varies per item
/// (aspect ratio at a shared target height); `placed` records whether the
/// item has ever been given on-screen coordinates, and `selected` is the
/// user's toggle, owned by the selection subsystem and read-only to layout.
pub struct DisplayItem {
    /// Stable identity: where the image was loaded from.
    pub path: String,
    /// Pixel width at the shared display height.
    pub width: i32,
    /// Pixel height (the shared display height).
    pub height: i32,
    /// Whether the item has ever been given on-screen coordinates.
    pub placed: bool,
    /// Whether the user has selected the item.
    pub selected: bool,
}

/// The widths of a sequence of items, as mathematical integers.
pub open spec fn widths_of(items: Seq<DisplayItem>) -> Seq<int> {
    items.map_values(|it: DisplayItem| it.width as int)
}

/// A well-formed registry: every dimension is non-negative, and the total
/// width of all items fits in the coordinate type, so that accumulated row
/// widths and x positions never overflow.
pub open spec fn items_inv(items: Seq<DisplayItem>) -> bool {
    &&& forall|i: int|
        0 <= i < items.len() ==> (#[trigger] items[i]).width >= 0 && items[i].height >= 0
    &&& sum_seq(widths_of(items)) <= i32::MAX as int
}

/// Any contiguous run of a well-formed registry has a width sum within
/// coordinate range.
pub proof fn lemma_items_inv_subrange_sum(items: Seq<DisplayItem>, a: int, b: int)
    requires
        items_inv(items),
        0 <= a <= b <= items.len(),
    ensures
        0 <= sum_seq(widths_of(items).subrange(a, b)) <= i32::MAX as int,
{
    assert(forall|i: int| 0 <= i < widths_of(items).len() ==> widths_of(items)[i] >= 0);
    lemma_sum_subrange_bound(widths_of(items), a, b);
}

impl DisplayItem {
    /// Creates a fresh, not-yet-placed, unselected item for a decoded image.
    pub fn new(path: String, width: i32, height: i32) -> (item: DisplayItem)
        requires
            width >= 0,
            height >= 0,
        ensures
            item.path == path,
            item.width == width,
            item.height == height,
            !item.placed,
            !item.selected,
    {
        DisplayItem { path, width, height, placed: false, selected: false }
    }

    /// The item's pixel width.
    pub fn width(&self) -> (w: i32)
        ensures
            w == self.width,
    {
        self.width
    }
}

} // verus!
