//! The row spacer: the uniform inter-item gap and starting offset that
//! distribute a row's free space evenly, with equal margins at both ends.

use vstd::prelude::*;
use crate::item::{DisplayItem, widths_of, items_inv, lemma_items_inv_subrange_sum};
use crate::pack::Row;
use crate::sums::{sum_seq, lemma_sum_subrange_extend, lemma_sum_subrange_split, lemma_sum_nonneg};
use vstd::arithmetic::div_mod::{lemma_div_pos_is_pos, lemma_fundamental_div_mod, lemma_mod_bound};
use vstd::arithmetic::mul::lemma_mul_nonnegative;

verus! {

/// The width the items of the row `start .. end` occupy by themselves.
pub open spec fn row_used_width(widths: Seq<int>, start: int, end: int) -> int {
    sum_seq(widths.subrange(start, end))
}

/// The uniform gap placed before, between and after the `count` items of a
/// row: the free space divided evenly into `count + 1` gaps, rounded down
/// (leftover pixels stay unused on the right), clamped at zero for a row
/// whose items alone already overflow the bound.
pub open spec fn gap_of(used: int, count: int, max_width: int) -> int
    recommends
        count >= 0,
{
    if max_width - used < 0 {
        0
    } else {
        (max_width - used) / (count + 1)
    }
}

/// The gap is never negative.
pub proof fn lemma_gap_nonneg(used: int, count: int, max_width: int)
    requires
        count >= 0,
    ensures
        gap_of(used, count, max_width) >= 0,
{
    if max_width - used >= 0 {
        lemma_div_pos_is_pos(max_width - used, count + 1);
    }
}

/// All `count + 1` gaps together never exceed the free space they divide.
pub proof fn lemma_gap_total(used: int, count: int, max_width: int)
    requires
        count >= 0,
        used <= max_width,
    ensures
        gap_of(used, count, max_width) * (count + 1) + used <= max_width,
{
    let free = max_width - used;
    let d = count + 1;
    lemma_fundamental_div_mod(free, d);
    lemma_mod_bound(free, d);
    assert(free / d * d == d * (free / d)) by (nonlinear_arith);
}

/// The x position of item `k` within the row `start .. end`: to its left lie
/// `k - start` whole items and `k - start + 1` gaps.
pub open spec fn row_x(widths: Seq<int>, start: int, end: int, max_width: int, k: int) -> int {
    gap_of(row_used_width(widths, start, end), end - start, max_width) * (k - start + 1)
        + sum_seq(widths.subrange(start, k))
}

/// Advancing by one item moves the x position by the item's width plus one gap.
pub proof fn lemma_row_x_step(widths: Seq<int>, start: int, end: int, max_width: int, k: int)
    requires
        0 <= start <= k < end <= widths.len(),
    ensures
        row_x(widths, start, end, max_width, k + 1) == row_x(widths, start, end, max_width, k)
            + widths[k] + gap_of(row_used_width(widths, start, end), end - start, max_width),
{
    let gap = gap_of(row_used_width(widths, start, end), end - start, max_width);
    lemma_sum_subrange_extend(widths, start, k);
    assert(gap * (k + 1 - start + 1) == gap * (k - start + 1) + gap) by (nonlinear_arith);
}

/// Every x position within a row is non-negative, and even the rightmost
/// edge — the last item plus its trailing gap — stays within the larger of
/// the row bound and the row's own used width.
pub proof fn lemma_row_x_bound(widths: Seq<int>, start: int, end: int, max_width: int, k: int)
    requires
        0 <= start <= k <= end <= widths.len(),
        start < end,
        forall|i: int| 0 <= i < widths.len() ==> widths[i] >= 0,
    ensures
        ({
            let used = row_used_width(widths, start, end);
            let gap = gap_of(used, end - start, max_width);
            &&& gap >= 0
            &&& row_x(widths, start, end, max_width, k) >= 0
            &&& row_x(widths, start, end, max_width, k) + gap * (end - k) + sum_seq(
                widths.subrange(k, end),
            ) <= if used <= max_width {
                max_width
            } else {
                used
            }
            &&& row_x(widths, start, end, max_width, k) <= if used <= max_width {
                max_width
            } else {
                used
            }
        }),
{
    let used = row_used_width(widths, start, end);
    let count = end - start;
    let gap = gap_of(used, count, max_width);
    lemma_gap_nonneg(used, count, max_width);
    lemma_sum_subrange_split(widths, start, k, end);
    assert(forall|i: int|
        0 <= i < widths.subrange(start, k).len() ==> widths.subrange(start, k)[i] >= 0);
    lemma_sum_nonneg(widths.subrange(start, k));
    assert(forall|i: int|
        0 <= i < widths.subrange(k, end).len() ==> widths.subrange(k, end)[i] >= 0);
    lemma_sum_nonneg(widths.subrange(k, end));
    lemma_mul_nonnegative(gap, k - start + 1);
    lemma_mul_nonnegative(gap, end - k);
    // the whole span: all count + 1 gaps plus all item widths
    assert(gap * (k - start + 1) + gap * (end - k) == gap * ((end - start) + 1))
        by (nonlinear_arith);
    if used <= max_width {
        lemma_gap_total(used, count, max_width);
    } else {
        assert(gap == 0);
    }
}

/// Law: spacing symmetry.  For a row of `N` items whose used width fits the
/// bound, `gap = (max_width - used) / (N + 1)` rounded down, the first item
/// starts exactly one gap in, and the last item's right edge plus one
/// trailing gap still lies within `max_width`.  (The excluded case is a row
/// whose items alone exceed `max_width` — the single oversized item — where
/// the gap clamps to zero and the item itself overflows.)
pub proof fn lemma_spacing_symmetry(widths: Seq<int>, start: int, end: int, max_width: int)
    requires
        0 <= start < end <= widths.len(),
        forall|i: int| 0 <= i < widths.len() ==> widths[i] >= 0,
        row_used_width(widths, start, end) <= max_width,
    ensures
        ({
            let gap = gap_of(row_used_width(widths, start, end), end - start, max_width);
            &&& row_x(widths, start, end, max_width, start) == gap
            &&& row_x(widths, start, end, max_width, end - 1) + widths[end - 1] + gap
                <= max_width
        }),
{
    let used = row_used_width(widths, start, end);
    let gap = gap_of(used, end - start, max_width);
    assert(widths.subrange(start, start) =~= Seq::<int>::empty());
    assert(gap * (start - start + 1) == gap) by (nonlinear_arith);
    lemma_row_x_step(widths, start, end, max_width, end - 1);
    lemma_row_x_bound(widths, start, end, max_width, end);
    assert(widths.subrange(end, end) =~= Seq::<int>::empty());
}

/// The used width of the row `start .. end`, computed by accumulation.
#[verifier::loop_isolation(false)]
pub fn row_used_width_exec(items: &Vec<DisplayItem>, start: usize, end: usize) -> (used: i32)
    requires
        items_inv(items@),
        start <= end <= items@.len(),
    ensures
        used as int == row_used_width(widths_of(items@), start as int, end as int),
        used >= 0,
{
    let ghost w = widths_of(items@);
    let mut used: i32 = 0;
    let mut k: usize = start;
    proof {
        assert(w.subrange(start as int, start as int) =~= Seq::<int>::empty());
    }
    while k < end
        invariant
            start <= k <= end,
            used as int == sum_seq(w.subrange(start as int, k as int)),
            used >= 0,
        decreases end - k,
    {
        proof {
            assert(w[k as int] == items@[k as int].width as int);
            lemma_sum_subrange_extend(w, start as int, k as int);
            lemma_items_inv_subrange_sum(items@, start as int, k as int + 1);
        }
        used = used + items[k].width;
        k = k + 1;
    }
    used
}

/// Computes the uniform gap and the starting x offset for one row: the free
/// space `max_width - used`, clamped at zero, divided evenly into one more
/// gap than there are items; the first item starts one gap in.
pub fn row_gap(items: &Vec<DisplayItem>, row: &Row, max_width: i32) -> (g: (i32, i32))
    requires
        items_inv(items@),
        row.start <= row.end <= items@.len(),
    ensures
        g.0 as int == gap_of(
            row_used_width(widths_of(items@), row.start as int, row.end as int),
            row.end as int - row.start as int,
            max_width as int,
        ),
        g.1 == g.0,
{
    let used = row_used_width_exec(items, row.start, row.end);
    let free: i64 = max_width as i64 - used as i64;
    if free < 0 {
        (0, 0)
    } else {
        let count = row.end - row.start;
        let gap_wide: u128 = (free as u128) / (count as u128 + 1);
        proof {
            lemma_div_pos_is_pos(free as int, count as int + 1);
            vstd::arithmetic::div_mod::lemma_div_nonincreasing(free as int, count as int + 1);
        }
        let gap = gap_wide as i32;
        (gap, gap)
    }
}

} // verus!
