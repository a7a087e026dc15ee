//! What became of one page: nothing, or the rows that differ.

use vstd::prelude::*;
use crate::raster::{Raster, Rgb};
use crate::segments::{
    covers, encoded_so_far, flags, lemma_encoder_step, lemma_flags_ordered, lemma_single_band,
    ordered_on_page, whole_page, DifferenceSegementsBuilder, DifferenceSegments, Position,
    Segment,
};
use crate::similarity::{
    is_nearest, lemma_grid_distance_zero, lemma_identical_page_is_found, same_size,
    PageSimilarity,
};

verus! {

/// Whether two rows hold different pixels in one of their first `columns`
/// columns.
pub open spec fn row_differs(a: Seq<Rgb>, b: Seq<Rgb>, columns: int) -> bool {
    exists|x: int| 0 <= x < columns && #[trigger] a[x] != b[x]
}

/// The smaller of two numbers.
pub open spec fn lesser(a: nat, b: nat) -> nat {
    if a <= b {
        a
    } else {
        b
    }
}

/// The row signal of a page against its baseline page: for every row that
/// both have, whether the two rows differ in a column that both have.
pub open spec fn row_hits(a: Raster, b: Raster) -> Seq<bool> {
    Seq::new(
        lesser(a.spec_height(), b.spec_height()),
        |row: int| row_differs(a.rows()[row], b.rows()[row], lesser(a.spec_width(), b.spec_width()) as int),
    )
}

/// The result of comparing one page of the current document with the
/// baseline.
#[derive(Debug, PartialEq, Eq)]
pub enum Comparison {
    /// The page is the same as a page of the baseline.
    Identical,
    /// The page differs, in these parts.
    Different(DifferenceSegments),
}

impl View for Comparison {
    type V = Option<Seq<Segment>>;

    /// The segments of a page that differs, and `None` for a page that
    /// does not.
    open spec fn view(&self) -> Option<Seq<Segment>> {
        match *self {
            Comparison::Identical => None,
            Comparison::Different(segments) => Some(segments@),
        }
    }
}

/// `outcome` is what page `a` comes to, given the answer `sim` of the
/// matcher: a page without a match is flagged as a whole, a page that
/// matches in every pixel is not flagged, and any other page is flagged in
/// the rows in which it differs from its match.
pub open spec fn follows_from(
    sim: PageSimilarity,
    a: Raster,
    baseline: Seq<Raster>,
    outcome: Option<Seq<Segment>>,
) -> bool {
    match sim {
        PageSimilarity::Different => outcome == Some(whole_page()),
        PageSimilarity::Similar(index, count) => if count == 0 {
            outcome is None
        } else {
            outcome matches Some(segments) && flags(
                segments,
                row_hits(a, baseline[index as int]),
                a.spec_height() as int,
            )
        },
    }
}

impl Comparison {
    /// A page flagged from top to bottom.
    pub fn whole_page() -> (outcome: Self)
        ensures
            outcome@ == Some(whole_page()),
    {
        let mut segments: Vec<Segment> = Vec::new();
        segments.push((Position::top(), Position::bottom()));
        Comparison::Different(DifferenceSegments { segments })
    }

    /// Whether rows `y` of two rasters differ in one of their first
    /// `columns` columns.
    fn row_hit(img_a: &Raster, img_b: &Raster, y: u32, columns: u32) -> (hit: bool)
        requires
            img_a.well_formed(),
            img_b.well_formed(),
            columns <= img_a.spec_width(),
            columns <= img_b.spec_width(),
            y < img_a.spec_height(),
            y < img_b.spec_height(),
        ensures
            hit == row_differs(img_a.rows()[y as int], img_b.rows()[y as int], columns as int),
    {
        let mut x: u32 = 0;
        while x < columns
            invariant
                x <= columns,
                columns <= img_a.spec_width(),
                columns <= img_b.spec_width(),
                y < img_a.spec_height(),
                y < img_b.spec_height(),
                !row_differs(img_a.rows()[y as int], img_b.rows()[y as int], x as int),
            decreases columns - x,
        {
            if !img_a.same_pixel(img_b, x, y) {
                return true;
            }
            x = x + 1;
        }
        false
    }

    /// Turns the matcher's answer for one page into the page's result.
    ///
    /// A page without a match is flagged as a whole. A page that matches
    /// in every pixel is `Identical`. Any other page is walked row by row
    /// together with its match, `img_b[index]`, and flagged in every
    /// maximal run of rows that differ; row `r` of a page of `n` rows is
    /// written as the position `r / (n - 1)`. A page of one row is flagged
    /// as a whole where that row differs.
    ///
    /// The segments of the result lie between 0 and 1, in order and apart
    /// from each other.
    pub fn from_similarity(sim: &PageSimilarity, img_a: &Raster, img_b: &[Raster]) -> (outcome: Self)
        requires
            sim matches PageSimilarity::Similar(index, count) ==> count == 0 || index < img_b@.len(),
        ensures
            follows_from(*sim, *img_a, img_b@, outcome@),
            outcome@ matches Some(segments) ==> ordered_on_page(segments),
    {
        match sim {
            PageSimilarity::Different => {
                let outcome = Self::whole_page();
                proof {
                    let segments = whole_page();
                    assert(segments[0].0.at_most(&segments[0].1));
                }
                outcome
            },
            PageSimilarity::Similar(index, count) => {
                if *count == 0 {
                    Comparison::Identical
                } else {
                    let matched = &img_b[*index];
                    let height_a = img_a.height();
                    let height_b = matched.height();
                    let width_a = img_a.width();
                    let width_b = matched.width();
                    let rows = if height_a <= height_b {
                        height_a
                    } else {
                        height_b
                    };
                    let columns = if width_a <= width_b {
                        width_a
                    } else {
                        width_b
                    };
                    let ghost hits = row_hits(*img_a, *matched);
                    if height_a == 1 {
                        let outcome = if rows == 1 && Self::row_hit(img_a, matched, 0, columns) {
                            Self::whole_page()
                        } else {
                            Comparison::Different(DifferenceSegments { segments: Vec::new() })
                        };
                        proof {
                            lemma_flags_ordered(outcome@->0, hits, 1);
                        }
                        return outcome;
                    }
                    let ghost bottom = height_a - 1;
                    let mut builder = DifferenceSegementsBuilder::build();
                    let mut y: u32 = 0;
                    assert(hits.take(0).len() == 0);
                    while y < rows
                        invariant
                            y <= rows,
                            img_a.well_formed(),
                            matched.well_formed(),
                            rows == lesser(img_a.spec_height(), matched.spec_height()),
                            columns == lesser(img_a.spec_width(), matched.spec_width()),
                            height_a == img_a.spec_height(),
                            height_a != 1,
                            hits == row_hits(*img_a, *matched),
                            bottom == height_a - 1,
                            encoded_so_far(
                                builder.finished(),
                                builder.current(),
                                hits,
                                y as int,
                                bottom,
                            ),
                        decreases rows - y,
                    {
                        let hit = Self::row_hit(img_a, matched, y, columns);
                        let position = Position { numerator: y, denominator: height_a - 1 };
                        proof {
                            lemma_encoder_step(
                                builder.finished(),
                                builder.current(),
                                hits,
                                y as int,
                                bottom,
                                position,
                            );
                        }
                        builder.step(position, hit);
                        y = y + 1;
                    }
                    assert(hits.take(rows as int) =~= hits);
                    let segments = builder.finish();
                    proof {
                        lemma_flags_ordered(segments@, hits, height_a as int);
                    }
                    Comparison::Different(segments)
                }
            },
        }
    }
}

/// `outcome` is the result for page `a` of the current document against
/// the pages of the baseline: what follows from the matcher's answer.
pub open spec fn is_result(a: Raster, baseline: Seq<Raster>, outcome: Option<Seq<Segment>>) -> bool {
    exists|found: PageSimilarity| #[trigger]
        is_nearest(a, baseline, found) && follows_from(found, a, baseline, outcome)
}

/// Between two rasters of the same size a row is hit exactly when the two
/// rows are not the same.
pub proof fn lemma_row_hits_same_size(a: Raster, b: Raster, row: int)
    requires
        a.well_formed(),
        b.well_formed(),
        same_size(a, b),
        0 <= row < a.spec_height(),
    ensures
        row_hits(a, b).len() == a.spec_height(),
        row_hits(a, b)[row] <==> a.rows()[row] != b.rows()[row],
{
    let ra = a.rows()[row];
    let rb = b.rows()[row];
    let width = a.spec_width() as int;
    if !row_differs(ra, rb, width) {
        assert(ra =~= rb);
    }
}

/// A page whose pixels are all found again in a page of the baseline has
/// the result `Identical`.
pub proof fn lemma_identical_page(
    a: Raster,
    baseline: Seq<Raster>,
    at: int,
    outcome: Option<Seq<Segment>>,
)
    requires
        a.well_formed(),
        0 <= at < baseline.len(),
        baseline[at].well_formed(),
        same_size(a, baseline[at]),
        a.rows() == baseline[at].rows(),
        is_result(a, baseline, outcome),
    ensures
        outcome is None,
{
    let found = choose|found: PageSimilarity| #[trigger]
        is_nearest(a, baseline, found) && follows_from(found, a, baseline, outcome);
    lemma_identical_page_is_found(a, baseline, at, found);
}

/// Where a page and its match differ in the rows from `top` to `low` and
/// in no other, the page is flagged in one segment: from `top / (n - 1)`
/// to `low / (n - 1)` on a page of `n` rows, and from 0 to 1 on a page
/// of one row.
pub proof fn lemma_one_band(a: Raster, b: Raster, top: int, low: int, segments: Seq<Segment>)
    requires
        a.well_formed(),
        b.well_formed(),
        same_size(a, b),
        0 <= top <= low < a.spec_height(),
        forall|row: int|
            0 <= row < a.spec_height() ==> (#[trigger] a.rows()[row] != b.rows()[row] <==> top
                <= row <= low),
        flags(segments, row_hits(a, b), a.spec_height() as int),
    ensures
        segments == if a.spec_height() == 1 {
            whole_page()
        } else {
            seq![
                (
                    Position { numerator: top as u32, denominator: (a.spec_height() - 1) as u32 },
                    Position { numerator: low as u32, denominator: (a.spec_height() - 1) as u32 },
                ),
            ]
        },
{
    let hits = row_hits(a, b);
    assert forall|row: int| 0 <= row < hits.len() implies (#[trigger] hits[row] <==> top <= row
        <= low) by {
        lemma_row_hits_same_size(a, b, row);
        assert(a.rows()[row] != b.rows()[row] <==> top <= row <= low);
    }
    lemma_row_hits_same_size(a, b, 0);
    if a.spec_height() != 1 {
        lemma_single_band(segments, hits, a.spec_height() - 1, top, low);
    }
}

/// The result of a page that differs is never without a segment, and its
/// segments lie between 0 and 1, in order and apart from each other.
pub proof fn lemma_result_well_formed(a: Raster, baseline: Seq<Raster>, segments: Seq<Segment>)
    requires
        a.well_formed(),
        forall|j: int| 0 <= j < baseline.len() ==> (#[trigger] baseline[j]).well_formed(),
        is_result(a, baseline, Some(segments)),
    ensures
        segments.len() > 0,
        ordered_on_page(segments),
{
    let found = choose|found: PageSimilarity| #[trigger]
        is_nearest(a, baseline, found) && follows_from(found, a, baseline, Some(segments));
    match found {
        PageSimilarity::Different => {
            assert(segments == whole_page());
            assert(segments[0].0.at_most(&segments[0].1));
        },
        PageSimilarity::Similar(index, count) => {
            let b = baseline[index as int];
            let hits = row_hits(a, b);
            assert(b.well_formed());
            lemma_grid_distance_zero(a.rows(), b.rows());
            assert(a.rows() != b.rows());
            assert(exists|row: int| 0 <= row < a.spec_height() && a.rows()[row] != b.rows()[row]) by {
                if forall|row: int| 0 <= row < a.spec_height() ==> a.rows()[row] == b.rows()[row] {
                    assert(a.rows() =~= b.rows());
                }
            }
            let row = choose|row: int| 0 <= row < a.spec_height() && a.rows()[row] != b.rows()[row];
            lemma_row_hits_same_size(a, b, row);
            assert(hits[row]);
            lemma_flags_ordered(segments, hits, a.spec_height() as int);
            if a.spec_height() != 1 {
                let k = choose|k: int| 0 <= k < segments.len() && covers(#[trigger] segments[k], row);
            }
        },
    }
}

} // verus!
