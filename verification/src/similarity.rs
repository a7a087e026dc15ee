//! How far two rendered pages are apart, and which baseline page is
//! nearest to a page of the current document.

use vstd::prelude::*;
use std::cmp::Ordering;
use crate::raster::{Raster, Rgb};

verus! {

/// The number of columns in which two rows of equal length hold different
/// pixels.
pub open spec fn row_distance(a: Seq<Rgb>, b: Seq<Rgb>) -> nat
    decreases a.len(),
{
    if a.len() == 0 {
        0
    } else {
        let last = a.len() - 1;
        row_distance(a.take(last), b.take(last)) + if a[last] != b[last] {
            1nat
        } else {
            0nat
        }
    }
}

/// The number of pixel positions in which two grids of equal size differ.
pub open spec fn grid_distance(a: Seq<Seq<Rgb>>, b: Seq<Seq<Rgb>>) -> nat
    decreases a.len(),
{
    if a.len() == 0 {
        0
    } else {
        let last = a.len() - 1;
        grid_distance(a.take(last), b.take(last)) + row_distance(a[last], b[last])
    }
}

/// Whether two rasters have the same width and the same height.
pub open spec fn same_size(a: Raster, b: Raster) -> bool {
    a.spec_width() == b.spec_width() && a.spec_height() == b.spec_height()
}

/// The distance between two pages: the number of differing pixels where
/// the two have the same size, and none at all where they do not.
pub open spec fn page_distance(a: Raster, b: Raster) -> Option<nat> {
    if same_size(a, b) {
        Some(grid_distance(a.rows(), b.rows()))
    } else {
        None
    }
}

/// The outcome of comparing one page with one other page.
#[derive(Debug, Clone, Copy, PartialEq, Eq, Structural)]
pub enum Similiarity {
    /// The two pages differ in size and cannot be compared pixel by pixel.
    Different,
    /// The two pages have the same size and differ in this many pixels.
    Similar(usize),
}

impl Similiarity {
    /// The distance that this outcome stands for.
    pub open spec fn distance(&self) -> Option<nat> {
        match *self {
            Similiarity::Different => None,
            Similiarity::Similar(n) => Some(n as nat),
        }
    }

    /// Whether this outcome is strictly better than `other`: any distance
    /// is better than none, and a smaller distance better than a greater.
    pub open spec fn better_than(&self, other: &Self) -> bool {
        match (*self, *other) {
            (Similiarity::Similar(s), Similiarity::Similar(o)) => s < o,
            (Similiarity::Similar(_), Similiarity::Different) => true,
            (Similiarity::Different, _) => false,
        }
    }

    /// Orders outcomes from best to worst: `Less` where this one is better
    /// than `other`, `Greater` where `other` is better, `Equal` otherwise.
    pub fn cmp(&self, other: &Self) -> (order: Ordering)
        ensures
            self.better_than(other) <==> order == Ordering::Less,
            other.better_than(self) <==> order == Ordering::Greater,
    {
        match (self, other) {
            (Similiarity::Different, Similiarity::Different) => Ordering::Equal,
            (Similiarity::Different, Similiarity::Similar(_)) => Ordering::Greater,
            (Similiarity::Similar(_), Similiarity::Different) => Ordering::Less,
            (Similiarity::Similar(s), Similiarity::Similar(o)) => {
                if *s < *o {
                    Ordering::Less
                } else if *s == *o {
                    Ordering::Equal
                } else {
                    Ordering::Greater
                }
            },
        }
    }
}

/// `best` is what a search through the first `seen` pages of `baseline`
/// holds: nothing before the first page, and after it the index and the
/// outcome of the first page than which none of those seen is better.
pub open spec fn best_of_seen(
    a: Raster,
    baseline: Seq<Raster>,
    seen: usize,
    best: Option<(usize, Similiarity)>,
) -> bool {
    match best {
        None => seen == 0,
        Some((index, outcome)) => {
            &&& index < seen
            &&& outcome.distance() == page_distance(a, baseline[index as int])
            &&& match outcome {
                Similiarity::Different => forall|j: int|
                    0 <= j < seen ==> !same_size(a, #[trigger] baseline[j]),
                Similiarity::Similar(count) => {
                    &&& forall|j: int|
                        0 <= j < seen && same_size(a, #[trigger] baseline[j]) ==> count
                            <= grid_distance(a.rows(), baseline[j].rows())
                    &&& forall|j: int|
                        0 <= j < index && same_size(a, #[trigger] baseline[j]) ==> count
                            < grid_distance(a.rows(), baseline[j].rows())
                },
            }
        },
    }
}

/// The result of looking for a page among the pages of the baseline.
#[derive(Debug, Clone, Copy, PartialEq, Eq, Structural)]
pub enum PageSimilarity {
    /// No baseline page has the size of the page.
    Different,
    /// The index of the nearest baseline page, and the number of pixels in
    /// which it differs from the page.
    Similar(usize, usize),
}

/// `found` is the answer for page `a` among `baseline`: the page of the
/// same size with the fewest differing pixels, the first of them where
/// several are equally near, and `Different` when no page has the size.
pub open spec fn is_nearest(a: Raster, baseline: Seq<Raster>, found: PageSimilarity) -> bool {
    match found {
        PageSimilarity::Different => forall|j: int|
            0 <= j < baseline.len() ==> !same_size(a, #[trigger] baseline[j]),
        PageSimilarity::Similar(index, count) => {
            &&& index < baseline.len()
            &&& page_distance(a, baseline[index as int]) == Some(count as nat)
            &&& forall|j: int|
                0 <= j < baseline.len() && same_size(a, #[trigger] baseline[j]) ==> count
                    <= grid_distance(a.rows(), baseline[j].rows())
            &&& forall|j: int|
                0 <= j < index && same_size(a, #[trigger] baseline[j]) ==> count < grid_distance(
                    a.rows(),
                    baseline[j].rows(),
                )
        },
    }
}

/// Taking one more column of two rows adds one to their distance where
/// that column differs.
pub proof fn lemma_row_distance_step(a: Seq<Rgb>, b: Seq<Rgb>, x: int)
    requires
        0 <= x < a.len(),
        x < b.len(),
    ensures
        row_distance(a.take(x + 1), b.take(x + 1)) == row_distance(a.take(x), b.take(x)) + if a[x]
            != b[x] {
            1nat
        } else {
            0nat
        },
{
    assert(a.take(x + 1).take(x) =~= a.take(x));
    assert(b.take(x + 1).take(x) =~= b.take(x));
}

/// Taking one more row of two grids adds the distance of that row to
/// their distance.
pub proof fn lemma_grid_distance_step(a: Seq<Seq<Rgb>>, b: Seq<Seq<Rgb>>, y: int)
    requires
        0 <= y < a.len(),
        y < b.len(),
    ensures
        grid_distance(a.take(y + 1), b.take(y + 1)) == grid_distance(a.take(y), b.take(y))
            + row_distance(a[y], b[y]),
{
    assert(a.take(y + 1).take(y) =~= a.take(y));
    assert(b.take(y + 1).take(y) =~= b.take(y));
}

/// Two rows of equal length are the same row exactly when their distance
/// is zero, and the distance is never more than the length.
pub proof fn lemma_row_distance_zero(a: Seq<Rgb>, b: Seq<Rgb>)
    requires
        a.len() == b.len(),
    ensures
        row_distance(a, b) <= a.len(),
        row_distance(a, b) == 0 <==> a == b,
    decreases a.len(),
{
    if a.len() > 0 {
        let last = a.len() - 1;
        lemma_row_distance_zero(a.take(last), b.take(last));
        if row_distance(a, b) == 0 {
            assert(a.take(last) == b.take(last));
            assert forall|i: int| 0 <= i < a.len() implies a[i] == b[i] by {
                if i < last {
                    assert(a.take(last)[i] == b.take(last)[i]);
                }
            }
            assert(a =~= b);
        }
        if a == b {
            assert(a.take(last) =~= b.take(last));
        }
    } else {
        assert(a =~= b);
    }
}

/// Two grids of rows of equal lengths are the same grid exactly when
/// their distance is zero.
pub proof fn lemma_grid_distance_zero(a: Seq<Seq<Rgb>>, b: Seq<Seq<Rgb>>)
    requires
        a.len() == b.len(),
        forall|y: int| 0 <= y < a.len() ==> (#[trigger] a[y]).len() == b[y].len(),
    ensures
        grid_distance(a, b) == 0 <==> a == b,
    decreases a.len(),
{
    if a.len() > 0 {
        let last = a.len() - 1;
        lemma_grid_distance_zero(a.take(last), b.take(last));
        lemma_row_distance_zero(a[last], b[last]);
        if grid_distance(a, b) == 0 {
            assert forall|y: int| 0 <= y < a.len() implies a[y] == b[y] by {
                if y < last {
                    assert(a.take(last)[y] == b.take(last)[y]);
                }
            }
            assert(a =~= b);
        }
        if a == b {
            assert(a.take(last) =~= b.take(last));
        }
    } else {
        assert(a =~= b);
    }
}

/// The matcher has one answer only for a page and a baseline.
pub proof fn lemma_nearest_unique(
    a: Raster,
    baseline: Seq<Raster>,
    first: PageSimilarity,
    second: PageSimilarity,
)
    requires
        is_nearest(a, baseline, first),
        is_nearest(a, baseline, second),
    ensures
        first == second,
{
    match (first, second) {
        (PageSimilarity::Similar(i, n), PageSimilarity::Similar(j, m)) => {
            assert(same_size(a, baseline[i as int]));
            assert(same_size(a, baseline[j as int]));
        },
        (PageSimilarity::Similar(i, n), PageSimilarity::Different) => {
            assert(same_size(a, baseline[i as int]));
        },
        (PageSimilarity::Different, PageSimilarity::Similar(j, m)) => {
            assert(same_size(a, baseline[j as int]));
        },
        _ => {},
    }
}

/// A page that is found again in the baseline, pixel for pixel, is
/// answered with that page, or with an earlier one that is the same, and
/// with no differing pixel.
pub proof fn lemma_identical_page_is_found(
    a: Raster,
    baseline: Seq<Raster>,
    at: int,
    found: PageSimilarity,
)
    requires
        a.well_formed(),
        0 <= at < baseline.len(),
        baseline[at].well_formed(),
        same_size(a, baseline[at]),
        a.rows() == baseline[at].rows(),
        is_nearest(a, baseline, found),
    ensures
        page_distance(a, baseline[at]) == Some(0nat),
        found matches PageSimilarity::Similar(index, count) && index <= at && count == 0,
{
    lemma_grid_distance_zero(a.rows(), baseline[at].rows());
}

} // verus!
