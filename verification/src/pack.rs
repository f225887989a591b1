//! The row packer: greedy first-fit partition of an ordered item sequence
//! into rows whose accumulated width stays under a bound.

use vstd::prelude::*;
use crate::item::{DisplayItem, widths_of, items_inv, lemma_items_inv_subrange_sum};
use crate::sums::{
    sum_seq, lemma_sum_singleton, lemma_sum_subrange_extend,
};

verus! {

/// A row: the contiguous run of registry items with indices `start .. end`.
#[derive(Clone, Copy, Debug)]
pub struct Row {
    /// Index of the first item of the row.
    pub start: usize,
    /// One past the index of the last item of the row.
    pub end: usize,
}

/// The rows as mathematical index ranges.
pub open spec fn rows_view(rows: Seq<Row>) -> Seq<(int, int)> {
    rows.map_values(|r: Row| (r.start as int, r.end as int))
}

/// Greedy first-fit packing of the items from index `i` on.  The open row
/// began at `row_start` and has accumulated width `cur`.  An item that would
/// make the open row reach `max_width` first closes that row (if non-empty),
/// then always joins the — possibly fresh — open row; the remainder row is
/// closed at the end whether it fills or not.
pub open spec fn pack_from(
    widths: Seq<int>,
    max_width: int,
    i: int,
    row_start: int,
    cur: int,
) -> Seq<(int, int)>
    decreases widths.len() - i,
{
    if i < 0 || i >= widths.len() {
        if row_start < i {
            seq![(row_start, i)]
        } else {
            Seq::empty()
        }
    } else if cur + widths[i] >= max_width && row_start < i {
        seq![(row_start, i)] + pack_from(widths, max_width, i + 1, i, widths[i])
    } else {
        pack_from(widths, max_width, i + 1, row_start, cur + widths[i])
    }
}

/// The packing of a whole width sequence into rows.
pub open spec fn pack_spec(widths: Seq<int>, max_width: int) -> Seq<(int, int)> {
    pack_from(widths, max_width, 0, 0, 0)
}

/// `rows` are consecutive, non-empty index ranges that exactly cover
/// `lo .. hi`: the first begins at `lo`, each begins where its predecessor
/// ended, and the last ends at `hi`.
pub open spec fn rows_partition(rows: Seq<(int, int)>, lo: int, hi: int) -> bool {
    &&& lo <= hi
    &&& (rows.len() == 0 <==> lo == hi)
    &&& (rows.len() > 0 ==> rows[0].0 == lo && rows[rows.len() - 1].1 == hi)
    &&& (forall|j: int| 0 <= j < rows.len() ==> 0 <= (#[trigger] rows[j]).0 < rows[j].1 <= hi)
    &&& (forall|j: int| 0 <= j < rows.len() - 1 ==> (#[trigger] rows[j]).1 == rows[j + 1].0)
}

/// Dropping the first row of a partition of `lo .. hi` leaves a partition
/// of `rows[0].1 .. hi`.
pub proof fn lemma_partition_drop_first(rows: Seq<(int, int)>, lo: int, hi: int)
    requires
        rows_partition(rows, lo, hi),
        rows.len() > 0,
    ensures
        rows_partition(rows.drop_first(), rows[0].1, hi),
{
    let rest = rows.drop_first();
    assert(forall|j: int| 0 <= j < rest.len() ==> #[trigger] rest[j] == rows[j + 1]);
    if rest.len() > 0 {
        assert(rest[0].0 == rows[0].1);
        assert(rest[rest.len() - 1].1 == rows[rows.len() - 1].1);
        assert(rows[0].1 < hi);
    }
}

/// A partition of `lo .. hi` has at most `hi - lo` rows, every row holding
/// at least one item.
pub proof fn lemma_partition_count(rows: Seq<(int, int)>, lo: int, hi: int)
    requires
        rows_partition(rows, lo, hi),
    ensures
        rows.len() <= hi - lo,
    decreases rows.len(),
{
    if rows.len() > 0 {
        lemma_partition_drop_first(rows, lo, hi);
        lemma_partition_count(rows.drop_first(), rows[0].1, hi);
    }
}

/// The rows of a partition, concatenated in order, rebuild the covered
/// part of the sequence exactly.
pub open spec fn concat_rows<A>(s: Seq<A>, rows: Seq<(int, int)>) -> Seq<A>
    decreases rows.len(),
{
    if rows.len() == 0 {
        Seq::empty()
    } else {
        s.subrange(rows[0].0, rows[0].1) + concat_rows(s, rows.drop_first())
    }
}

/// Concatenating the rows of a partition of `lo .. hi` yields the
/// subsequence `lo .. hi` itself.
pub proof fn lemma_partition_concat<A>(s: Seq<A>, rows: Seq<(int, int)>, lo: int, hi: int)
    requires
        rows_partition(rows, lo, hi),
        0 <= lo,
        hi <= s.len(),
    ensures
        concat_rows(s, rows) == s.subrange(lo, hi),
    decreases rows.len(),
{
    if rows.len() == 0 {
        assert(s.subrange(lo, hi) =~= Seq::<A>::empty());
    } else {
        lemma_partition_drop_first(rows, lo, hi);
        lemma_partition_concat(s, rows.drop_first(), rows[0].1, hi);
        assert(s.subrange(lo, rows[0].1) + s.subrange(rows[0].1, hi) =~= s.subrange(lo, hi));
    }
}

/// The item counts of the rows.
pub open spec fn row_sizes(rows: Seq<(int, int)>) -> Seq<int> {
    rows.map_values(|r: (int, int)| r.1 - r.0)
}

/// The row item counts of a partition of `lo .. hi` add up to `hi - lo`.
pub proof fn lemma_partition_sizes(rows: Seq<(int, int)>, lo: int, hi: int)
    requires
        rows_partition(rows, lo, hi),
    ensures
        sum_seq(row_sizes(rows)) == hi - lo,
    decreases rows.len(),
{
    if rows.len() > 0 {
        lemma_partition_drop_first(rows, lo, hi);
        lemma_partition_sizes(rows.drop_first(), rows[0].1, hi);
        assert(row_sizes(rows).drop_first() =~= row_sizes(rows.drop_first()));
        assert(row_sizes(rows)[0] == rows[0].1 - rows[0].0);
    }
}

/// Packing always yields a partition of the whole index range.
pub proof fn lemma_pack_from_partition(
    widths: Seq<int>,
    max_width: int,
    i: int,
    row_start: int,
    cur: int,
)
    requires
        0 <= row_start <= i <= widths.len(),
    ensures
        rows_partition(
            pack_from(widths, max_width, i, row_start, cur),
            row_start,
            widths.len() as int,
        ),
    decreases widths.len() - i,
{
    let rows = pack_from(widths, max_width, i, row_start, cur);
    let len = widths.len() as int;
    if i >= len {
        // the final remainder row, if the open row is non-empty
    } else if cur + widths[i] >= max_width && row_start < i {
        let rest = pack_from(widths, max_width, i + 1, i, widths[i]);
        lemma_pack_from_partition(widths, max_width, i + 1, i, widths[i]);
        assert(rest.len() > 0);
        assert(rows[0] == (row_start, i));
        assert(forall|j: int| 1 <= j < rows.len() ==> #[trigger] rows[j] == rest[j - 1]);
        assert(rows[rows.len() - 1].1 == rest[rest.len() - 1].1);
        assert(rows[0].1 == rest[0].0);
    } else {
        lemma_pack_from_partition(widths, max_width, i + 1, row_start, cur + widths[i]);
    }
}

/// Law: packing loses and reorders nothing.  The rows partition the item
/// indices exactly — row item counts add up to the item count, and the rows,
/// concatenated in order, rebuild the original item sequence.
pub proof fn lemma_pack_partitions(items: Seq<DisplayItem>, max_width: int)
    ensures
        ({
            let rows = pack_spec(widths_of(items), max_width);
            &&& rows_partition(rows, 0, items.len() as int)
            &&& sum_seq(row_sizes(rows)) == items.len()
            &&& concat_rows(items, rows) == items
            &&& rows.len() <= items.len()
        }),
{
    let w = widths_of(items);
    let rows = pack_spec(w, max_width);
    lemma_pack_from_partition(w, max_width, 0, 0, 0);
    lemma_partition_sizes(rows, 0, items.len() as int);
    lemma_partition_concat(items, rows, 0, items.len() as int);
    assert(items.subrange(0, items.len() as int) =~= items);
    lemma_partition_count(rows, 0, items.len() as int);
}

/// The generalized width-bound invariant: the open row is either strictly
/// under the bound or a single item, and so is every row that packing closes.
proof fn lemma_pack_from_rows_fit(
    widths: Seq<int>,
    max_width: int,
    i: int,
    row_start: int,
    cur: int,
)
    requires
        0 <= row_start <= i <= widths.len(),
        cur == sum_seq(widths.subrange(row_start, i)),
        cur < max_width || i - row_start <= 1,
    ensures
        ({
            let rows = pack_from(widths, max_width, i, row_start, cur);
            forall|j: int|
                0 <= j < rows.len() ==> sum_seq(
                    widths.subrange((#[trigger] rows[j]).0, rows[j].1),
                ) < max_width || rows[j].1 == rows[j].0 + 1
        }),
    decreases widths.len() - i,
{
    let rows = pack_from(widths, max_width, i, row_start, cur);
    if i >= widths.len() {
        // at most the remainder row, whose sum is `cur`
        if row_start < i {
            assert(rows == seq![(row_start, i)]);
            assert(rows[0] == (row_start, i));
            assert(sum_seq(widths.subrange(rows[0].0, rows[0].1)) == cur);
        }
        assert(forall|j: int|
            0 <= j < rows.len() ==> sum_seq(widths.subrange((#[trigger] rows[j]).0, rows[j].1))
                < max_width || rows[j].1 == rows[j].0 + 1);
    } else if cur + widths[i] >= max_width && row_start < i {
        let rest = pack_from(widths, max_width, i + 1, i, widths[i]);
        assert(widths.subrange(i, i + 1) =~= seq![widths[i]]);
        lemma_sum_singleton(widths[i]);
        lemma_pack_from_rows_fit(widths, max_width, i + 1, i, widths[i]);
        assert(rows[0] == (row_start, i));
        assert(forall|j: int| 1 <= j < rows.len() ==> #[trigger] rows[j] == rest[j - 1]);
        assert(forall|j: int|
            0 <= j < rows.len() ==> sum_seq(widths.subrange((#[trigger] rows[j]).0, rows[j].1))
                < max_width || rows[j].1 == rows[j].0 + 1);
    } else {
        lemma_sum_subrange_extend(widths, row_start, i);
        lemma_pack_from_rows_fit(widths, max_width, i + 1, row_start, cur + widths[i]);
        assert(rows == pack_from(widths, max_width, i + 1, row_start, cur + widths[i]));
        assert(forall|j: int|
            0 <= j < rows.len() ==> sum_seq(widths.subrange((#[trigger] rows[j]).0, rows[j].1))
                < max_width || rows[j].1 == rows[j].0 + 1);
    }
}

/// Law: every row packing produces — the unfilled remainder row included —
/// has width sum strictly under the bound, except a row made of one single
/// oversized item.
pub proof fn lemma_pack_rows_fit(widths: Seq<int>, max_width: int)
    ensures
        ({
            let rows = pack_spec(widths, max_width);
            forall|j: int|
                0 <= j < rows.len() ==> sum_seq(
                    widths.subrange((#[trigger] rows[j]).0, rows[j].1),
                ) < max_width || rows[j].1 == rows[j].0 + 1
        }),
{
    assert(widths.subrange(0, 0) =~= Seq::<int>::empty());
    lemma_pack_from_rows_fit(widths, max_width, 0, 0, 0);
}

/// Packs the registry into rows: greedy first-fit in original order.  An
/// item whose width would make the open row reach `max_width` starts a new
/// row (an item wider than `max_width` still gets a row of its own), and
/// the remainder row is kept whether or not it fills.
#[verifier::loop_isolation(false)]
pub fn pack(items: &Vec<DisplayItem>, max_width: i32) -> (rows: Vec<Row>)
    requires
        items_inv(items@),
    ensures
        rows_view(rows@) == pack_spec(widths_of(items@), max_width as int),
        rows_partition(rows_view(rows@), 0, items@.len() as int),
{
    let ghost w = widths_of(items@);
    let ghost target = pack_spec(w, max_width as int);
    let mut rows: Vec<Row> = Vec::new();
    let mut row_start: usize = 0;
    let mut cur_width: i32 = 0;
    let mut i: usize = 0;
    proof {
        assert(w.subrange(0, 0) =~= Seq::<int>::empty());
    }
    while i < items.len()
        invariant
            row_start <= i <= items@.len(),
            cur_width as int == sum_seq(w.subrange(row_start as int, i as int)),
            0 <= cur_width,
            rows_view(rows@) + pack_from(
                w,
                max_width as int,
                i as int,
                row_start as int,
                cur_width as int,
            ) == target,
        decreases items@.len() - i,
    {
        let ghost rows_prev = rows@;
        let ghost suffix = pack_from(
            w,
            max_width as int,
            i as int,
            row_start as int,
            cur_width as int,
        );
        let wi = items[i].width;
        proof {
            assert(w[i as int] == wi as int);
            lemma_sum_subrange_extend(w, row_start as int, i as int);
            lemma_items_inv_subrange_sum(items@, row_start as int, i as int + 1);
        }
        if cur_width + wi >= max_width && row_start < i {
            rows.push(Row { start: row_start, end: i });
            proof {
                assert(rows_view(rows@) =~= rows_view(rows_prev).push(
                    (row_start as int, i as int),
                ));
                assert(suffix == seq![(row_start as int, i as int)] + pack_from(
                    w,
                    max_width as int,
                    i as int + 1,
                    i as int,
                    wi as int,
                ));
                assert(rows_view(rows_prev).push((row_start as int, i as int)) + pack_from(
                    w,
                    max_width as int,
                    i as int + 1,
                    i as int,
                    wi as int,
                ) =~= rows_view(rows_prev) + suffix);
                assert(w.subrange(i as int, i as int + 1) =~= seq![wi as int]);
                lemma_sum_singleton(wi as int);
            }
            row_start = i;
            cur_width = wi;
        } else {
            cur_width = cur_width + wi;
        }
        i = i + 1;
    }
    if row_start < i {
        rows.push(Row { start: row_start, end: i });
        proof {
            assert(rows_view(rows@) =~= rows_view(rows@.drop_last()).push(
                (row_start as int, i as int),
            ));
            assert(rows_view(rows@.drop_last()).push((row_start as int, i as int))
                =~= rows_view(rows@.drop_last()) + seq![(row_start as int, i as int)]);
        }
    }
    proof {
        assert(rows_view(rows@) =~= target);
        lemma_pack_from_partition(w, max_width as int, 0, 0, 0);
        assert(w.len() == items@.len());
    }
    rows
}

} // verus!
