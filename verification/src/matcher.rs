//! The page matcher: for each page of the current document, the nearest
//! page of the baseline.

use vstd::prelude::*;
use std::cmp::Ordering;
use pdfium_render::prelude::PdfiumError;
use crate::comparison::{is_result, Comparison};
use crate::errors::PDFComparisonError;
use crate::raster::Raster;
use crate::segments::{ordered_on_page, whole_page};
use crate::similarity::{
    best_of_seen, grid_distance, is_nearest, lemma_grid_distance_step, lemma_row_distance_step,
    page_distance, row_distance, same_size, PageSimilarity, Similiarity,
};

verus! {

/// Compares the pages of two rendered documents.
pub struct PDFComparison {
    /// The width in pixels to which every page is rendered.
    pub target_width: u32,
    /// The greatest height in pixels of a rendered page.
    pub maximum_height: u32,
    /// Whether a page that is wider than high is turned by a quarter
    /// before it is rendered, so that its long side is the height.
    pub rotate_landscape: bool,
}

/// What rendering one page of a document gave.
pub enum PageRender {
    /// The page, rendered.
    Rendered(Raster),
    /// The page could not be had from the document.
    Missing(PdfiumError),
    /// The page could not be rendered.
    Failed(PdfiumError),
}

/// What follows once the two documents of a pair were opened.
pub enum Opened {
    /// The current document cannot be read: the pair cannot be compared.
    Failed(PDFComparisonError),
    /// The baseline cannot be read: these are the results.
    WithoutBaseline(Vec<Comparison>),
    /// Both can be read: render their pages and compare them.
    Render,
}

/// What opening a document and rendering its pages gave.
pub enum Loaded {
    /// The document could not be opened.
    Unreadable(PdfiumError),
    /// The document was opened. It has this many pages, and rendering
    /// them gave these outcomes, page by page. The outcomes may end with
    /// the first page that failed, and they may be left out altogether
    /// where the other document of the pair could not be opened, as no
    /// page is looked at then.
    Read(usize, Vec<PageRender>),
}

/// `comparisons` are the results of the rendered pages `a` against the
/// rendered pages `b`: one result for each page of `a`, in order, each
/// with its segments between 0 and 1, in order and apart.
pub open spec fn page_results(a: Seq<Raster>, b: Seq<Raster>, comparisons: Seq<Comparison>) -> bool {
    &&& comparisons.len() == a.len()
    &&& forall|i: int| 0 <= i < a.len() ==> is_result(a[i], b, (#[trigger] comparisons[i])@)
    &&& forall|i: int|
        0 <= i < a.len() ==> ((#[trigger] comparisons[i])@ matches Some(segments)
            ==> ordered_on_page(segments))
}

/// `outcome` is what the comparison of the current document `a` with its
/// baseline `b` comes to.
pub open spec fn compared(
    a: Loaded,
    b: Loaded,
    outcome: Result<Vec<Comparison>, PDFComparisonError>,
) -> bool {
    match (a, b) {
        (Loaded::Unreadable(error), _) => outcome == Err::<Vec<Comparison>, PDFComparisonError>(
            PDFComparisonError::UnableToLoadPDF(error),
        ),
        (Loaded::Read(pages, _), Loaded::Unreadable(_)) => outcome matches Ok(comparisons)
            && comparisons@.len() == pages && forall|i: int|
            0 <= i < pages ==> (#[trigger] comparisons@[i])@ == Some(whole_page()),
        (Loaded::Read(_, renders_a), Loaded::Read(_, renders_b)) => match first_failure(
            renders_a@,
        ) {
            Some(error) => outcome == Err::<Vec<Comparison>, PDFComparisonError>(error),
            None => match first_failure(renders_b@) {
                Some(error) => outcome == Err::<Vec<Comparison>, PDFComparisonError>(error),
                None => outcome matches Ok(comparisons) && page_results(
                    rendered_pages(renders_a@),
                    rendered_pages(renders_b@),
                    comparisons@,
                ),
            },
        },
    }
}

/// The rendered pages among `renders`, in their order.
pub open spec fn rendered_pages(renders: Seq<PageRender>) -> Seq<Raster>
    decreases renders.len(),
{
    if renders.len() == 0 {
        Seq::empty()
    } else {
        match renders.last() {
            PageRender::Rendered(page) => rendered_pages(renders.drop_last()).push(page),
            _ => rendered_pages(renders.drop_last()),
        }
    }
}

/// The error of the first of `renders` that is no rendered page, if
/// there is one.
pub open spec fn first_failure(renders: Seq<PageRender>) -> Option<PDFComparisonError>
    decreases renders.len(),
{
    if renders.len() == 0 {
        None
    } else {
        match first_failure(renders.drop_last()) {
            Some(error) => Some(error),
            None => match renders.last() {
                PageRender::Rendered(_) => None,
                PageRender::Missing(error) => Some(PDFComparisonError::PdfiumError(error)),
                PageRender::Failed(error) => Some(PDFComparisonError::UnableToRenderPDF(error)),
            },
        }
    }
}

impl PDFComparison {
    /// Decides what follows once the two documents were opened: `current`
    /// holds the number of pages of the current document, or the error
    /// of opening it, and `baseline_opened` says whether the baseline
    /// could be opened.
    ///
    /// Without the current document nothing can be compared. Without a
    /// baseline everything has changed: every page of the current
    /// document is flagged as a whole.
    pub fn after_opening(&self, current: Result<usize, PdfiumError>, baseline_opened: bool) -> (next:
        Opened)
        ensures
            match current {
                Err(error) => next matches Opened::Failed(reason) && reason
                    == PDFComparisonError::UnableToLoadPDF(error),
                Ok(pages) => if baseline_opened {
                    next is Render
                } else {
                    next matches Opened::WithoutBaseline(comparisons) && comparisons@.len() == pages
                        && forall|i: int|
                        0 <= i < pages ==> (#[trigger] comparisons@[i])@ == Some(whole_page())
                },
            },
    {
        match current {
            Err(error) => Opened::Failed(PDFComparisonError::UnableToLoadPDF(error)),
            Ok(pages) => {
                if baseline_opened {
                    Opened::Render
                } else {
                    Opened::WithoutBaseline(self.without_baseline(pages))
                }
            },
        }
    }

    /// Gathers the rendered pages of a document, in their order. The
    /// first page that could not be had or rendered fails the document:
    /// no page is handed out then.
    pub fn extract_images(&self, renders: Vec<PageRender>) -> (pages: Result<
        Vec<Raster>,
        PDFComparisonError,
    >)
        ensures
            match first_failure(renders@) {
                Some(error) => pages == Err::<Vec<Raster>, PDFComparisonError>(error),
                None => pages matches Ok(rasters) && rasters@ == rendered_pages(renders@)
                    && rasters@.len() == renders@.len(),
            },
    {
        let ghost all = renders@;
        let mut rest = renders;
        let mut reversed: Vec<PageRender> = Vec::new();
        while rest.len() > 0
            invariant
                all == rest@ + reversed@.reverse(),
            decreases rest@.len(),
        {
            let last = rest.pop().unwrap();
            reversed.push(last);
            proof {
                assert(reversed@.reverse() =~= seq![last] + reversed@.drop_last().reverse());
                assert(all =~= rest@ + reversed@.reverse());
            }
        }
        assert(all =~= reversed@.reverse());
        let mut pages: Vec<Raster> = Vec::new();
        assert(all.take(0) =~= Seq::<PageRender>::empty());
        while reversed.len() > 0
            invariant
                all == renders@,
                all == all.take(pages@.len() as int) + reversed@.reverse(),
                pages@.len() + reversed@.len() == all.len(),
                first_failure(all.take(pages@.len() as int)) is None,
                pages@ == rendered_pages(all.take(pages@.len() as int)),
            decreases reversed@.len(),
        {
            let ghost done = pages@.len() as int;
            let next = reversed.pop().unwrap();
            proof {
                assert(all[done] == next);
                assert(all.take(done + 1).drop_last() =~= all.take(done));
                assert(all.take(done + 1).last() == next);
            }
            match next {
                PageRender::Rendered(page) => {
                    pages.push(page);
                    proof {
                        assert(all =~= all.take(done + 1) + reversed@.reverse());
                    }
                },
                PageRender::Missing(error) => {
                    proof {
                        lemma_first_failure_stays(all, done + 1);
                    }
                    return Err(PDFComparisonError::from(error));
                },
                PageRender::Failed(error) => {
                    proof {
                        lemma_first_failure_stays(all, done + 1);
                    }
                    return Err(PDFComparisonError::UnableToRenderPDF(error));
                },
            }
        }
        assert(all.take(pages@.len() as int) =~= all);
        Ok(pages)
    }

    /// A comparison of pages rendered 500 pixels wide and at most 10000
    /// pixels high, landscape pages turned upright.
    pub fn new() -> (comparison: Self)
        ensures
            comparison.target_width == 500,
            comparison.maximum_height == 10000,
            comparison.rotate_landscape,
    {
        PDFComparison { target_width: 500, maximum_height: 10000, rotate_landscape: true }
    }

    /// The results for a document of `pages` pages whose baseline cannot
    /// be read: with nothing to compare against, every page is flagged as
    /// a whole.
    pub fn without_baseline(&self, pages: usize) -> (comparisons: Vec<Comparison>)
        ensures
            comparisons@.len() == pages,
            forall|i: int| 0 <= i < pages ==> (#[trigger] comparisons@[i])@ == Some(whole_page()),
    {
        let mut comparisons: Vec<Comparison> = Vec::new();
        let mut i: usize = 0;
        while i < pages
            invariant
                i <= pages,
                comparisons@.len() == i,
                forall|k: int| 0 <= k < i ==> (#[trigger] comparisons@[k])@ == Some(whole_page()),
            decreases pages - i,
        {
            comparisons.push(Comparison::whole_page());
            i = i + 1;
        }
        comparisons
    }

    /// Compares a document with its baseline, from what opening and
    /// rendering the two gave.
    ///
    /// A current document that cannot be opened fails the comparison. A
    /// baseline that cannot be opened is no error: every page of the
    /// current document is then flagged as a whole. Where both were
    /// opened, the first page that could not be rendered fails the
    /// comparison, the pages of the current document before those of the
    /// baseline; otherwise the rendered pages are compared.
    pub fn compare_pdfs(&self, a: Loaded, b: Loaded) -> (outcome: Result<
        Vec<Comparison>,
        PDFComparisonError,
    >)
        ensures
            compared(a, b, outcome),
    {
        let (current, renders_a) = match a {
            Loaded::Unreadable(error) => (Err(error), None),
            Loaded::Read(pages, renders) => (Ok(pages), Some(renders)),
        };
        let (baseline_opened, renders_b) = match b {
            Loaded::Unreadable(_) => (false, None),
            Loaded::Read(_, renders) => (true, Some(renders)),
        };
        match self.after_opening(current, baseline_opened) {
            Opened::Failed(error) => Err(error),
            Opened::WithoutBaseline(comparisons) => Ok(comparisons),
            Opened::Render => {
                let images_a = self.extract_images(renders_a.unwrap());
                let images_b = self.extract_images(renders_b.unwrap());
                match images_a {
                    Err(error) => Err(error),
                    Ok(pages_a) => match images_b {
                        Err(error) => Err(error),
                        Ok(pages_b) => Ok(self.compare_pages(&pages_a, &pages_b)),
                    },
                }
            },
        }
    }

    /// Compares the rendered pages `a` of the current document with the
    /// rendered pages `b` of its baseline. There is one result for each
    /// page of `a`, in the order of the pages: the page is matched with
    /// the nearest page of `b` and flagged where it differs from it. Pages
    /// of `b` that no page of `a` matches leave no trace.
    pub fn compare_pages(&self, a: &Vec<Raster>, b: &Vec<Raster>) -> (comparisons: Vec<Comparison>)
        ensures
            comparisons@.len() == a@.len(),
            forall|i: int|
                0 <= i < a@.len() ==> is_result(a@[i], b@, (#[trigger] comparisons@[i])@),
            forall|i: int|
                0 <= i < a@.len() ==> ((#[trigger] comparisons@[i])@ matches Some(segments)
                    ==> ordered_on_page(segments)),
    {
        let page_similarities = Self::find_min_similarity_for_images(a, b);
        let mut comparisons: Vec<Comparison> = Vec::new();
        let mut i: usize = 0;
        while i < a.len()
            invariant
                i <= a.len(),
                page_similarities@.len() == a@.len(),
                forall|k: int|
                    0 <= k < a@.len() ==> is_nearest(a@[k], b@, #[trigger] page_similarities@[k]),
                comparisons@.len() == i,
                forall|k: int| 0 <= k < i ==> is_result(a@[k], b@, (#[trigger] comparisons@[k])@),
                forall|k: int|
                    0 <= k < i ==> ((#[trigger] comparisons@[k])@ matches Some(segments)
                        ==> ordered_on_page(segments)),
            decreases a.len() - i,
        {
            let sim = &page_similarities[i];
            assert(is_nearest(a@[i as int], b@, *sim));
            let outcome = Comparison::from_similarity(sim, &a[i], b.as_slice());
            comparisons.push(outcome);
            i = i + 1;
        }
        comparisons
    }

    /// The number of columns of row `y` in which two rasters of the same
    /// size differ.
    fn row_difference(img_a: &Raster, img_b: &Raster, y: u32) -> (count: usize)
        requires
            img_a.well_formed(),
            img_b.well_formed(),
            same_size(*img_a, *img_b),
            y < img_a.spec_height(),
        ensures
            count == row_distance(img_a.rows()[y as int], img_b.rows()[y as int]),
            count <= img_a.spec_width(),
    {
        let width = img_a.width();
        let ghost row_a = img_a.rows()[y as int];
        let ghost row_b = img_b.rows()[y as int];
        let mut count: usize = 0;
        let mut x: u32 = 0;
        assert(row_a.take(0).len() == 0);
        while x < width
            invariant
                x <= width,
                width == img_a.spec_width(),
                same_size(*img_a, *img_b),
                y < img_a.spec_height(),
                row_a == img_a.rows()[y as int],
                row_b == img_b.rows()[y as int],
                row_a.len() == width,
                row_b.len() == width,
                count == row_distance(row_a.take(x as int), row_b.take(x as int)),
                count <= x,
            decreases width - x,
        {
            proof {
                lemma_row_distance_step(row_a, row_b, x as int);
            }
            if !img_a.same_pixel(img_b, x, y) {
                count = count + 1;
            }
            x = x + 1;
        }
        proof {
            assert(row_a.take(width as int) =~= row_a);
            assert(row_b.take(width as int) =~= row_b);
        }
        count
    }

    /// Compares two pages pixel by pixel: the number of positions at which
    /// they differ, or `Different` where their sizes differ.
    pub fn compare_images(img_a: &Raster, img_b: &Raster) -> (outcome: Similiarity)
        ensures
            outcome.distance() == page_distance(*img_a, *img_b),
    {
        let width = img_a.width();
        let height = img_a.height();
        if width != img_b.width() || height != img_b.height() {
            return Similiarity::Different;
        }
        let ghost rows_a = img_a.rows();
        let ghost rows_b = img_b.rows();
        let mut count: usize = 0;
        let mut y: u32 = 0;
        assert(rows_a.take(0).len() == 0);
        while y < height
            invariant
                y <= height,
                img_a.well_formed(),
                img_b.well_formed(),
                same_size(*img_a, *img_b),
                width == img_a.spec_width(),
                height == img_a.spec_height(),
                rows_a == img_a.rows(),
                rows_b == img_b.rows(),
                count == grid_distance(rows_a.take(y as int), rows_b.take(y as int)),
                count <= y * width,
            decreases height - y,
        {
            let in_row = Self::row_difference(img_a, img_b, y);
            proof {
                lemma_grid_distance_step(rows_a, rows_b, y as int);
                assert((y + 1) * width == y * width + width) by (nonlinear_arith);
                assert((y + 1) * width <= usize::MAX) by (nonlinear_arith)
                    requires
                        y + 1 <= height,
                        0 <= width,
                        3 * width * height <= usize::MAX,
                ;
            }
            count = count + in_row;
            y = y + 1;
        }
        proof {
            assert(rows_a.take(height as int) =~= rows_a);
            assert(rows_b.take(height as int) =~= rows_b);
        }
        Similiarity::Similar(count)
    }

    /// Finds the baseline page nearest to `img_a`: the one of the same size
    /// that differs in the fewest pixels, the first of them where several
    /// are equally near. `Different` where no baseline page has the size of
    /// `img_a`, and so where the baseline has no page at all.
    pub fn find_min_similarity(img_a: &Raster, img_b: &Vec<Raster>) -> (found: PageSimilarity)
        ensures
            is_nearest(*img_a, img_b@, found),
    {
        let mut best: Option<(usize, Similiarity)> = None;
        let mut j: usize = 0;
        while j < img_b.len()
            invariant
                j <= img_b.len(),
                best_of_seen(*img_a, img_b@, j, best),
            decreases img_b.len() - j,
        {
            let outcome = Self::compare_images(img_a, &img_b[j]);
            best =
            match best {
                None => Some((j, outcome)),
                Some((index, held)) => match held.cmp(&outcome) {
                    Ordering::Greater => Some((j, outcome)),
                    _ => Some((index, held)),
                },
            };
            j = j + 1;
        }
        match best {
            Some((index, Similiarity::Similar(count))) => PageSimilarity::Similar(index, count),
            _ => PageSimilarity::Different,
        }
    }

    /// Finds, for every page of the current document, the nearest page of
    /// the baseline. The answers stand in the order of the current pages.
    pub fn find_min_similarity_for_images(img_a: &Vec<Raster>, img_b: &Vec<Raster>) -> (found: Vec<
        PageSimilarity,
    >)
        ensures
            found@.len() == img_a@.len(),
            forall|i: int| 0 <= i < img_a@.len() ==> is_nearest(img_a@[i], img_b@, #[trigger] found@[i]),
    {
        let mut found: Vec<PageSimilarity> = Vec::new();
        let mut i: usize = 0;
        while i < img_a.len()
            invariant
                i <= img_a.len(),
                found@.len() == i,
                forall|k: int| 0 <= k < i ==> is_nearest(img_a@[k], img_b@, #[trigger] found@[k]),
            decreases img_a.len() - i,
        {
            let nearest = Self::find_min_similarity(&img_a[i], img_b);
            found.push(nearest);
            i = i + 1;
        }
        found
    }
}

/// A failure among the first pages of a document is the first failure of
/// the whole document.
pub proof fn lemma_first_failure_stays(renders: Seq<PageRender>, count: int)
    requires
        0 <= count <= renders.len(),
        first_failure(renders.take(count)) is Some,
    ensures
        first_failure(renders) == first_failure(renders.take(count)),
    decreases renders.len() - count,
{
    if count < renders.len() {
        assert(renders.take(count + 1).drop_last() =~= renders.take(count));
        lemma_first_failure_stays(renders, count + 1);
    } else {
        assert(renders.take(count) =~= renders);
    }
}

} // verus!
