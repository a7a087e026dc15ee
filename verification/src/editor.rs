//! The document annotator: which pages of the rewritten document go, which
//! are marked, and what the marker of a page looks like.

use vstd::prelude::*;
use pdfium_render::prelude::PdfiumError;
use crate::comparison::Comparison;
use crate::errors::PDFEditorError;
use crate::raster::{Overlay, Rgba};
use crate::segments::{DifferenceSegments, Position, Segment};

verus! {

/// The colour of a marked pixel: opaque red.
pub open spec fn marker_red() -> Rgba {
    (255u8, 0u8, 0u8, 255u8)
}

/// The colour of an unmarked pixel: nothing at all.
pub open spec fn clear() -> Rgba {
    (0u8, 0u8, 0u8, 0u8)
}

/// The overlay row at which `position` lies on an overlay of `height`
/// rows: `height * position`, rounded down.
pub open spec fn scaled_row(height: int, position: Position) -> int
    recommends
        position.denominator > 0,
{
    (height * position.numerator) / (position.denominator as int)
}

/// The overlay row in which `position` lies. Row `r` of an overlay of
/// `height` rows takes the positions from `r / height` up to
/// `(r + 1) / height`, and the bottom of the page, position 1, belongs to
/// the last row. A position beyond the bottom lies in no row of the
/// overlay: its row is `height` or more.
pub open spec fn row_of(height: int, position: Position) -> int
    recommends
        position.denominator > 0,
{
    if position.numerator == position.denominator {
        height - 1
    } else {
        scaled_row(height, position)
    }
}

/// Whether `segment` marks overlay row `row`: the rows from the one in
/// which the segment starts to the one in which it ends, both of them
/// included, as far as the overlay reaches. A segment of which one end is
/// no position marks no row.
pub open spec fn segment_marks(segment: Segment, height: int, row: int) -> bool {
    &&& segment.0.denominator > 0
    &&& segment.1.denominator > 0
    &&& row_of(height, segment.0) <= row <= row_of(height, segment.1)
    &&& row <= height - 1
}

/// Whether one of `segments` marks overlay row `row`.
pub open spec fn marks(segments: Seq<Segment>, height: int, row: int) -> bool {
    exists|k: int| 0 <= k < segments.len() && segment_marks(#[trigger] segments[k], height, row)
}

/// The width of the marker band on an overlay of `width` columns: `band`
/// columns, or the whole overlay where it is narrower.
pub open spec fn band_width(band: int, width: int) -> int {
    if band <= width {
        band
    } else {
        width
    }
}

/// `overlay` is the marker of `segments` with a band of `band` columns:
/// red in the band of every marked row, and clear everywhere else.
pub open spec fn is_marker(overlay: Overlay, segments: Seq<Segment>, band: int) -> bool {
    &&& overlay.well_formed()
    &&& forall|x: int, y: int|
        0 <= x < overlay.spec_width() && 0 <= y < overlay.spec_height()
            ==> #[trigger] overlay.rows()[y][x] == if x < band_width(band, overlay.spec_width() as int)
            && marks(segments, overlay.spec_height() as int, y) {
            marker_red()
        } else {
            clear()
        }
}

/// What happens to one page of the document that is rewritten. Each edit
/// names the page by the place it has when the edit is made, after all
/// edits before it.
#[derive(Debug, Clone, Copy, PartialEq, Eq, Structural)]
pub enum PageEdit {
    /// The page at this place is taken out.
    Delete(usize),
    /// The page at this place gets a marker.
    Mark(usize),
}

/// The number of pages among the first `count` that stay in the document:
/// those that differ from the baseline.
pub open spec fn kept_before(differences: Seq<Comparison>, count: int) -> nat
    decreases count,
{
    if count <= 0 {
        0
    } else {
        kept_before(differences, count - 1) + if differences[count - 1]@ is Some {
            1nat
        } else {
            0nat
        }
    }
}

/// The edit for page `index`: a page that is the same as in the baseline
/// goes, any other is marked. By then the page has moved up by the number
/// of pages taken out before it.
pub open spec fn edit_for(differences: Seq<Comparison>, index: int) -> PageEdit {
    let place = kept_before(differences, index) as usize;
    if differences[index]@ is Some {
        PageEdit::Mark(place)
    } else {
        PageEdit::Delete(place)
    }
}

/// The steps of rewriting a document at which the engine can fail.
#[derive(Debug, Clone, Copy, PartialEq, Eq, Structural)]
pub enum EditStep {
    /// Loading the document.
    Load,
    /// Fetching the page that an edit names.
    FetchPage,
    /// Taking a page out.
    DeletePage,
    /// Making the marker of a page.
    MakeMarker,
    /// Laying the marker over its page.
    AddMarker,
    /// Saving the rewritten document.
    Save,
}

/// The error of a rewriting that failed at `step` with the engine's
/// `error`. A failure to change the document, by taking a page out or by
/// marking one, is one kind of error.
pub open spec fn failure_at(step: EditStep, error: PdfiumError) -> PDFEditorError {
    match step {
        EditStep::Load => PDFEditorError::UnableToLoadPDF(error),
        EditStep::FetchPage => PDFEditorError::PdfiumError(error),
        EditStep::DeletePage => PDFEditorError::UnableToModifyPDF(error),
        EditStep::MakeMarker => PDFEditorError::UnableToModifyPDF(error),
        EditStep::AddMarker => PDFEditorError::UnableToModifyPDF(error),
        EditStep::Save => PDFEditorError::UnableToSavePDF(error),
    }
}

/// Rewrites a document so that it shows what has changed.
pub struct PDFEditor {
    /// The number of overlay pixels for each point of a page's size.
    pub scale: u32,
    /// The width in pixels of the band at the left margin.
    pub band: u32,
}

impl PDFEditor {
    /// An editor that draws five pixels to the point and a band of ten
    /// pixels.
    pub fn new() -> (editor: Self)
        ensures
            editor.scale == 5,
            editor.band == 10,
    {
        PDFEditor { scale: 5, band: 10 }
    }

    /// The error with which a rewriting ends that failed at `step`. Every
    /// failure ends the rewriting.
    pub fn failure(&self, step: EditStep, error: PdfiumError) -> (reason: PDFEditorError)
        ensures
            reason == failure_at(step, error),
    {
        match step {
            EditStep::Load => PDFEditorError::UnableToLoadPDF(error),
            EditStep::FetchPage => PDFEditorError::from(error),
            EditStep::DeletePage => PDFEditorError::UnableToModifyPDF(error),
            EditStep::MakeMarker => PDFEditorError::UnableToModifyPDF(error),
            EditStep::AddMarker => PDFEditorError::UnableToModifyPDF(error),
            EditStep::Save => PDFEditorError::UnableToSavePDF(error),
        }
    }

    /// The overlay row at which `position` lies.
    fn scale_row(height: u32, position: &Position) -> (row: u64)
        requires
            position.denominator > 0,
        ensures
            row == scaled_row(height as int, *position),
    {
        proof {
            let h = height as int;
            let n = position.numerator as int;
            let d = position.denominator as int;
            assert(0 <= h * n <= 0xffff_ffff * 0xffff_ffff) by (nonlinear_arith)
                requires
                    0 <= h <= 0xffff_ffff,
                    0 <= n <= 0xffff_ffff,
            ;
            assert(0 <= (h * n) / d <= h * n) by (nonlinear_arith)
                requires
                    0 < d,
                    0 <= h * n,
            ;
        }
        let product: u64 = (height as u64) * (position.numerator as u64);
        product / (position.denominator as u64)
    }

    /// The overlay row in which `position` lies.
    fn find_row(height: u32, position: &Position) -> (row: u64)
        requires
            position.denominator > 0,
            height > 0,
        ensures
            row == row_of(height as int, *position),
    {
        if position.numerator == position.denominator {
            (height - 1) as u64
        } else {
            Self::scale_row(height, position)
        }
    }

    /// Paints the first `band` columns of row `row` red.
    fn paint_row(overlay: &mut Overlay, row: u32, band: u32)
        requires
            old(overlay).well_formed(),
            band <= old(overlay).spec_width(),
            row < old(overlay).spec_height(),
        ensures
            final(overlay).well_formed(),
            final(overlay).spec_width() == old(overlay).spec_width(),
            final(overlay).spec_height() == old(overlay).spec_height(),
            forall|x: int, y: int|
                0 <= x < old(overlay).spec_width() && 0 <= y < old(overlay).spec_height()
                    ==> #[trigger] final(overlay).rows()[y][x] == if y == row && x < band {
                    marker_red()
                } else {
                    old(overlay).rows()[y][x]
                },
    {
        let mut column: u32 = 0;
        while column < band
            invariant
                column <= band,
                overlay.well_formed(),
                overlay.spec_width() == old(overlay).spec_width(),
                overlay.spec_height() == old(overlay).spec_height(),
                band <= overlay.spec_width(),
                row < overlay.spec_height(),
                forall|x: int, y: int|
                    0 <= x < overlay.spec_width() && 0 <= y < overlay.spec_height()
                        ==> #[trigger] overlay.rows()[y][x] == if y == row && x < column {
                        marker_red()
                    } else {
                        old(overlay).rows()[y][x]
                    },
            decreases band - column,
        {
            overlay.paint(column, row, (255, 0, 0, 255));
            column = column + 1;
        }
    }

    /// Paints the first `band` columns of the rows from `first` up to, and
    /// without, `end` red.
    fn paint_rows(overlay: &mut Overlay, first: u32, end: u32, band: u32)
        requires
            old(overlay).well_formed(),
            band <= old(overlay).spec_width(),
            end <= old(overlay).spec_height(),
        ensures
            final(overlay).well_formed(),
            final(overlay).spec_width() == old(overlay).spec_width(),
            final(overlay).spec_height() == old(overlay).spec_height(),
            forall|x: int, y: int|
                0 <= x < old(overlay).spec_width() && 0 <= y < old(overlay).spec_height()
                    ==> #[trigger] final(overlay).rows()[y][x] == if first <= y < end && x < band {
                    marker_red()
                } else {
                    old(overlay).rows()[y][x]
                },
    {
        let mut row: u32 = first;
        while row < end
            invariant
                first <= row,
                row <= end || row == first,
                overlay.well_formed(),
                overlay.spec_width() == old(overlay).spec_width(),
                overlay.spec_height() == old(overlay).spec_height(),
                band <= overlay.spec_width(),
                end <= overlay.spec_height(),
                forall|x: int, y: int|
                    0 <= x < overlay.spec_width() && 0 <= y < overlay.spec_height()
                        ==> #[trigger] overlay.rows()[y][x] == if first <= y < row && x < band {
                        marker_red()
                    } else {
                        old(overlay).rows()[y][x]
                    },
            decreases end - row,
        {
            Self::paint_row(overlay, row, band);
            row = row + 1;
        }
    }

    /// Makes the marker for a page of `page_width` by `page_height` points.
    ///
    /// The overlay has `scale` pixels to the point. In every row that one
    /// of `segments` marks, the band at the left margin is red; every
    /// other pixel is clear. A segment marks the rows from the one at which
    /// it starts to the one at which it ends, so that a segment that
    /// starts and ends at one position marks one row. Nothing is painted
    /// beyond the overlay, wherever a segment ends.
    pub fn mark_page_differences(
        &self,
        page_width: u32,
        page_height: u32,
        segments: &DifferenceSegments,
    ) -> (overlay: Overlay)
        requires
            self.scale * page_width <= u32::MAX,
            self.scale * page_height <= u32::MAX,
            4 * (self.scale * page_width) <= usize::MAX,
            4 * (self.scale * page_width) * (self.scale * page_height) <= isize::MAX,
        ensures
            overlay.spec_width() == self.scale * page_width,
            overlay.spec_height() == self.scale * page_height,
            is_marker(overlay, segments@, self.band as int),
    {
        let width = self.scale * page_width;
        let height = self.scale * page_height;
        let band = if self.band <= width {
            self.band
        } else {
            width
        };
        let mut overlay = Overlay::transparent(width, height);
        let mut k: usize = 0;
        while k < segments.segments.len()
            invariant
                k <= segments@.len(),
                overlay.well_formed(),
                overlay.spec_width() == width,
                overlay.spec_height() == height,
                band == band_width(self.band as int, width as int),
                forall|x: int, y: int|
                    0 <= x < width && 0 <= y < height ==> #[trigger] overlay.rows()[y][x] == if x
                        < band && marks(segments@.take(k as int), height as int, y) {
                        marker_red()
                    } else {
                        clear()
                    },
            decreases segments@.len() - k,
        {
            let segment = segments.segments[k];
            let ghost before = overlay;
            if segment.0.denominator > 0 && segment.1.denominator > 0 && height > 0 {
                let first = Self::find_row(height, &segment.0);
                let end = Self::find_row(height, &segment.1);
                let last = if end < height as u64 {
                    end
                } else {
                    (height - 1) as u64
                };
                if first <= last {
                    Self::paint_rows(&mut overlay, first as u32, last as u32 + 1, band);
                }
            }
            proof {
                let done = segments@.take(k as int);
                let next = segments@.take(k as int + 1);
                assert(next =~= done.push(segment));
                assert forall|x: int, y: int| 0 <= x < width && 0 <= y < height implies #[trigger] overlay.rows()[y][x]
                    == if x < band && marks(next, height as int, y) {
                    marker_red()
                } else {
                    clear()
                } by {
                    if marks(done, height as int, y) {
                        let j = choose|j: int|
                            0 <= j < done.len() && segment_marks(#[trigger] done[j], height as int, y);
                        assert(segment_marks(next[j], height as int, y));
                    }
                    if segment_marks(segment, height as int, y) {
                        assert(segment_marks(next[k as int], height as int, y));
                    }
                    if marks(next, height as int, y) {
                        let j = choose|j: int|
                            0 <= j < next.len() && segment_marks(#[trigger] next[j], height as int, y);
                        if j < k {
                            assert(segment_marks(done[j], height as int, y));
                        }
                    }
                    assert(before.rows()[y][x] == if x < band && marks(done, height as int, y) {
                        marker_red()
                    } else {
                        clear()
                    });
                }
            }
            k = k + 1;
        }
        assert(segments@.take(k as int) =~= segments@);
        overlay
    }

    /// Plans the rewriting of a document from the results of its pages,
    /// one result for each page, in the order of the pages.
    ///
    /// There is one edit for each page, to be made in this order. A page
    /// that is `Identical` is taken out, any other is marked. Each edit
    /// names the place that its page has once the edits before it are
    /// made: the number of marked pages before it.
    pub fn mark_differences(&self, differences: &[Comparison]) -> (edits: Vec<PageEdit>)
        ensures
            edits@.len() == differences@.len(),
            forall|i: int|
                0 <= i < differences@.len() ==> #[trigger] edits@[i] == edit_for(differences@, i),
    {
        let mut edits: Vec<PageEdit> = Vec::new();
        let mut kept: usize = 0;
        let mut index: usize = 0;
        while index < differences.len()
            invariant
                index <= differences@.len(),
                kept == kept_before(differences@, index as int),
                kept <= index,
                edits@.len() == index,
                forall|i: int| 0 <= i < index ==> #[trigger] edits@[i] == edit_for(differences@, i),
            decreases differences@.len() - index,
        {
            match &differences[index] {
                Comparison::Identical => {
                    edits.push(PageEdit::Delete(kept));
                },
                Comparison::Different(_) => {
                    edits.push(PageEdit::Mark(kept));
                    kept = kept + 1;
                },
            }
            index = index + 1;
        }
        edits
    }
}

/// The place that an edit names.
pub open spec fn place_of(edit: PageEdit) -> int {
    match edit {
        PageEdit::Delete(place) => place as int,
        PageEdit::Mark(place) => place as int,
    }
}

/// A document as the list of the pages it holds, each page known by the
/// index it had at the start. An edit that deletes takes the page at its
/// place out of the list; an edit that marks leaves the list as it is.
pub open spec fn apply_edit(document: Seq<int>, edit: PageEdit) -> Seq<int> {
    match edit {
        PageEdit::Delete(place) => document.remove(place as int),
        PageEdit::Mark(_) => document,
    }
}

/// The document of `pages` pages after the first `count` of `edits`.
pub open spec fn replay(edits: Seq<PageEdit>, pages: int, count: int) -> Seq<int>
    decreases count,
{
    if count <= 0 {
        Seq::new(pages as nat, |i: int| i)
    } else {
        apply_edit(replay(edits, pages, count - 1), edits[count - 1])
    }
}

/// The pages among the first `count` that differ from the baseline, in
/// order.
pub open spec fn survivors(differences: Seq<Comparison>, count: int) -> Seq<int>
    decreases count,
{
    if count <= 0 {
        Seq::empty()
    } else if differences[count - 1]@ is Some {
        survivors(differences, count - 1).push(count - 1)
    } else {
        survivors(differences, count - 1)
    }
}

/// The number of pages kept among the first `count` is never more than
/// `count`, and it is the number of survivors.
pub proof fn lemma_kept_before(differences: Seq<Comparison>, count: int)
    requires
        0 <= count,
    ensures
        kept_before(differences, count) <= count,
        survivors(differences, count).len() == kept_before(differences, count),
    decreases count,
{
    if count > 0 {
        lemma_kept_before(differences, count - 1);
    }
}

/// The bookkeeping of page places. While the planned edits are made in
/// order, the document holds the surviving pages among those done,
/// followed by all pages not yet done, so that the place which the next
/// edit names holds the very page that the edit is for. After the last
/// edit the document holds the pages that differ from the baseline, in
/// their order, and no other page.
pub proof fn lemma_page_bookkeeping(
    differences: Seq<Comparison>,
    edits: Seq<PageEdit>,
    count: int,
)
    requires
        differences.len() <= usize::MAX,
        edits.len() == differences.len(),
        forall|i: int| 0 <= i < differences.len() ==> #[trigger] edits[i] == edit_for(differences, i),
        0 <= count <= differences.len(),
    ensures
        replay(edits, differences.len() as int, count) == survivors(differences, count) + Seq::new(
            (differences.len() - count) as nat,
            |k: int| count + k,
        ),
        count < differences.len() ==> {
            &&& 0 <= place_of(edits[count]) < replay(edits, differences.len() as int, count).len()
            &&& replay(edits, differences.len() as int, count)[place_of(edits[count])] == count
        },
        count == differences.len() ==> replay(edits, differences.len() as int, count) == survivors(
            differences,
            count,
        ),
    decreases count,
{
    let pages = differences.len() as int;
    let rest = Seq::new((pages - count) as nat, |k: int| count + k);
    let document = replay(edits, pages, count);
    lemma_kept_before(differences, count);
    if count == 0 {
        assert(document =~= survivors(differences, 0) + rest);
    } else {
        let previous = count - 1;
        lemma_page_bookkeeping(differences, edits, previous);
        lemma_kept_before(differences, previous);
        let before = replay(edits, pages, previous);
        let kept = survivors(differences, previous);
        let old_rest = Seq::new((pages - previous) as nat, |k: int| previous + k);
        assert(before == kept + old_rest);
        assert(edits[previous] == edit_for(differences, previous));
        assert(place_of(edits[previous]) == kept.len());
        if differences[previous]@ is Some {
            assert(document == before);
            assert(document =~= kept.push(previous) + rest);
        } else {
            assert(document == before.remove(kept.len() as int));
            assert(document =~= kept + rest);
        }
    }
    if count < pages {
        assert(edits[count] == edit_for(differences, count));
        assert(place_of(edits[count]) == survivors(differences, count).len());
        assert(rest[0] == count);
    } else {
        assert(document =~= survivors(differences, count));
    }
}

/// A position on the page lies in a row of the overlay, and of two
/// positions on the page the lower one lies in no higher a row.
pub proof fn lemma_row_of_on_page(height: int, upper: Position, lower: Position)
    requires
        0 < height,
        upper.on_page(),
        lower.on_page(),
        upper.at_most(&lower),
    ensures
        0 <= row_of(height, upper) <= row_of(height, lower) < height,
{
    let n1 = upper.numerator as int;
    let d1 = upper.denominator as int;
    let n2 = lower.numerator as int;
    let d2 = lower.denominator as int;
    let q1 = (height * n1) / d1;
    let q2 = (height * n2) / d2;
    assert(0 <= height * n1 && 0 <= height * n2) by (nonlinear_arith)
        requires
            0 < height,
            0 <= n1,
            0 <= n2,
    ;
    vstd::arithmetic::div_mod::lemma_fundamental_div_mod(height * n1, d1);
    vstd::arithmetic::div_mod::lemma_fundamental_div_mod(height * n2, d2);
    vstd::arithmetic::div_mod::lemma_mod_bound(height * n1, d1);
    vstd::arithmetic::div_mod::lemma_mod_bound(height * n2, d2);
    assert(0 <= q1) by (nonlinear_arith)
        requires
            0 < d1,
            0 <= height * n1,
            height * n1 == d1 * q1 + (height * n1) % d1,
            0 <= (height * n1) % d1 < d1,
    ;
    assert(n1 < d1 ==> q1 < height) by (nonlinear_arith)
        requires
            0 < d1,
            0 < height,
            0 <= n1,
            height * n1 == d1 * q1 + (height * n1) % d1,
            0 <= (height * n1) % d1 < d1,
    ;
    assert(n2 < d2 ==> q2 < height) by (nonlinear_arith)
        requires
            0 < d2,
            0 < height,
            0 <= n2,
            height * n2 == d2 * q2 + (height * n2) % d2,
            0 <= (height * n2) % d2 < d2,
    ;
    assert(n2 < d2 ==> n1 < d1) by (nonlinear_arith)
        requires
            0 < d1,
            0 < d2,
            0 <= n1 <= d1,
            n1 * d2 <= n2 * d1,
    ;
    assert(q1 <= q2) by (nonlinear_arith)
        requires
            0 < d1,
            0 < d2,
            0 < height,
            n1 * d2 <= n2 * d1,
            height * n1 == d1 * q1 + (height * n1) % d1,
            0 <= (height * n1) % d1 < d1,
            height * n2 == d2 * q2 + (height * n2) % d2,
            0 <= (height * n2) % d2 < d2,
    ;
}

/// Every segment shows: a segment that lies on the page and ends no
/// earlier than it starts marks at least one row of any overlay that has
/// a row, the row in which it starts.
pub proof fn lemma_segment_shows(segment: Segment, height: int)
    requires
        0 < height,
        segment.0.on_page(),
        segment.1.on_page(),
        segment.0.at_most(&segment.1),
    ensures
        0 <= row_of(height, segment.0) < height,
        segment_marks(segment, height, row_of(height, segment.0)),
{
    lemma_row_of_on_page(height, segment.0, segment.1);
}

} // verus!
