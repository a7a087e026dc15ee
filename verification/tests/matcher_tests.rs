use document_diff::comparison::Comparison;
use document_diff::matcher::{Loaded, Opened, PDFComparison, PageRender};
use document_diff::editor::{PDFEditor, PageEdit};
use document_diff::errors::PDFComparisonError;
use document_diff::raster::Raster;
use document_diff::segments::{DifferenceSegments, Position};
use document_diff::similarity::{PageSimilarity, Similiarity};
use pdfium_render::prelude::PdfiumError;
use std::cmp::Ordering;

fn solid(width: u32, height: u32, value: u8) -> Raster {
    let samples = vec![value; (3 * width * height) as usize];
    Raster::from_samples(width, height, samples).unwrap()
}

/// A raster of `width` columns whose row `y` is filled with `rows[y]`.
fn striped(width: u32, rows: &[u8]) -> Raster {
    let mut samples = Vec::new();
    for value in rows {
        for _ in 0..(3 * width) {
            samples.push(*value);
        }
    }
    Raster::from_samples(width, rows.len() as u32, samples).unwrap()
}

/// A document that was opened and whose pages were all rendered.
fn read(pages: Vec<Raster>) -> Loaded {
    Loaded::Read(pages.len(), pages.into_iter().map(PageRender::Rendered).collect())
}

fn whole_page() -> Comparison {
    Comparison::Different(DifferenceSegments {
        segments: vec![(
            Position { numerator: 0, denominator: 1 },
            Position { numerator: 1, denominator: 1 },
        )],
    })
}

#[test]
fn raster_is_read_back_pixel_by_pixel() {
    let samples: Vec<u8> = (0..18).collect();
    let raster = Raster::from_samples(3, 2, samples).unwrap();
    assert_eq!(raster.width(), 3);
    assert_eq!(raster.height(), 2);
    assert_eq!(raster.pixel(0, 0), Some((0, 1, 2)));
    assert_eq!(raster.pixel(2, 0), Some((6, 7, 8)));
    assert_eq!(raster.pixel(1, 1), Some((12, 13, 14)));
    assert_eq!(raster.pixel(3, 0), None);
    assert_eq!(raster.pixel(0, 2), None);
}

#[test]
fn raster_needs_three_samples_for_each_pixel() {
    assert!(Raster::from_samples(2, 2, vec![0; 11]).is_none());
    assert!(Raster::from_samples(2, 2, vec![0; 12]).is_some());
    assert!(Raster::from_samples(2, 2, vec![0; 13]).is_some());
    assert!(Raster::from_samples(0, 7, Vec::new()).is_some());
    assert!(Raster::from_samples(u32::MAX, u32::MAX, vec![0; 16]).is_none());
}

#[test]
fn raster_without_rows_needs_a_row_that_can_be_counted() {
    let countable = 3 * (u32::MAX as u128) <= usize::MAX as u128;
    assert_eq!(Raster::from_samples(u32::MAX, 0, Vec::new()).is_some(), countable);
    assert!(Raster::from_samples(5, 0, Vec::new()).is_some());
}

#[test]
fn init_pdfium() {
    let comparison = PDFComparison::new();
    assert_eq!(comparison.target_width, 500);
    assert_eq!(comparison.maximum_height, 10000);
    assert!(comparison.rotate_landscape);
}

#[test]
fn comparison() {
    let strct = PDFComparison::new();
    let new_dev = vec![striped(2, &[1, 1, 1]), striped(2, &[1, 2, 3]), solid(4, 4, 0)];
    let old_dev = vec![striped(2, &[1, 1, 1]), striped(2, &[1, 2, 4])];
    let cmp = strct.compare_pdfs(read(new_dev), read(old_dev)).unwrap();
    assert_eq!(
        cmp,
        vec![
            Comparison::Identical,
            Comparison::Different(DifferenceSegments {
                segments: vec![(
                    Position { numerator: 2, denominator: 2 },
                    Position { numerator: 2, denominator: 2 },
                )],
            }),
            whole_page(),
        ]
    );
}

#[test]
fn annotation() {
    let strct = PDFComparison::new();
    let new_dev = vec![striped(2, &[1, 1, 1]), striped(2, &[1, 2, 3]), solid(4, 4, 0)];
    let old_dev = vec![striped(2, &[1, 1, 1]), striped(2, &[1, 2, 4])];
    let cmp = strct.compare_pdfs(read(new_dev), read(old_dev)).unwrap();
    let edtr = PDFEditor::new();
    let edits = edtr.mark_differences(&cmp);
    assert_eq!(edits, vec![PageEdit::Delete(0), PageEdit::Mark(0), PageEdit::Mark(1)]);
}

#[test]
fn identical_rasters_have_distance_zero() {
    let a = striped(4, &[7, 8, 9]);
    let b = striped(4, &[7, 8, 9]);
    assert_eq!(PDFComparison::compare_images(&a, &b), Similiarity::Similar(0));
    let found = PDFComparison::find_min_similarity(&a, &vec![solid(4, 3, 0), b]);
    assert_eq!(found, PageSimilarity::Similar(1, 0));
    let baseline = vec![solid(4, 3, 0), striped(4, &[7, 8, 9])];
    assert_eq!(Comparison::from_similarity(&found, &a, &baseline), Comparison::Identical);
}

#[test]
fn distance_counts_the_pixels_that_differ() {
    let a = Raster::from_samples(2, 2, vec![0, 0, 0, 1, 1, 1, 2, 2, 2, 3, 3, 3]).unwrap();
    let b = Raster::from_samples(2, 2, vec![0, 0, 9, 1, 1, 1, 2, 9, 2, 9, 3, 3]).unwrap();
    assert_eq!(PDFComparison::compare_images(&a, &b), Similiarity::Similar(3));
    assert_eq!(PDFComparison::compare_images(&b, &a), Similiarity::Similar(3));
}

#[test]
fn rasters_of_other_sizes_are_different() {
    let a = solid(2, 3, 0);
    assert_eq!(PDFComparison::compare_images(&a, &solid(3, 2, 0)), Similiarity::Different);
    assert_eq!(PDFComparison::compare_images(&a, &solid(2, 4, 0)), Similiarity::Different);
    assert_eq!(PDFComparison::compare_images(&solid(0, 3, 0), &solid(0, 4, 0)), Similiarity::Different);
    assert_eq!(PDFComparison::compare_images(&solid(0, 3, 0), &solid(0, 3, 0)), Similiarity::Similar(0));
}

#[test]
fn outcomes_are_ordered_from_best_to_worst() {
    let different = Similiarity::Different;
    assert_eq!(different.cmp(&Similiarity::Different), Ordering::Equal);
    assert_eq!(different.cmp(&Similiarity::Similar(9)), Ordering::Greater);
    assert_eq!(Similiarity::Similar(9).cmp(&different), Ordering::Less);
    assert_eq!(Similiarity::Similar(3).cmp(&Similiarity::Similar(4)), Ordering::Less);
    assert_eq!(Similiarity::Similar(4).cmp(&Similiarity::Similar(4)), Ordering::Equal);
    assert_eq!(Similiarity::Similar(5).cmp(&Similiarity::Similar(4)), Ordering::Greater);
}

#[test]
fn nearest_page_is_the_first_of_equal_distance() {
    let a = solid(2, 2, 0);
    let baseline = vec![solid(3, 2, 0), solid(2, 2, 1), solid(2, 2, 1)];
    assert_eq!(
        PDFComparison::find_min_similarity(&a, &baseline),
        PageSimilarity::Similar(1, 4)
    );
}

#[test]
fn nearest_page_has_the_fewest_differing_pixels() {
    let a = striped(2, &[5, 5, 5]);
    let baseline = vec![striped(2, &[0, 0, 0]), striped(2, &[5, 0, 5]), striped(2, &[5, 5, 0])];
    assert_eq!(
        PDFComparison::find_min_similarity(&a, &baseline),
        PageSimilarity::Similar(1, 2)
    );
}

#[test]
fn page_without_a_page_of_its_size_is_different() {
    let a = solid(2, 2, 0);
    assert_eq!(PDFComparison::find_min_similarity(&a, &Vec::new()), PageSimilarity::Different);
    assert_eq!(
        PDFComparison::find_min_similarity(&a, &vec![solid(1, 2, 0), solid(2, 1, 0)]),
        PageSimilarity::Different
    );
}

#[test]
fn answers_stand_in_the_order_of_the_current_pages() {
    let current = vec![solid(2, 2, 1), solid(3, 3, 0), solid(2, 2, 0)];
    let baseline = vec![solid(2, 2, 0), solid(2, 2, 1)];
    assert_eq!(
        PDFComparison::find_min_similarity_for_images(&current, &baseline),
        vec![
            PageSimilarity::Similar(1, 0),
            PageSimilarity::Different,
            PageSimilarity::Similar(0, 0)
        ]
    );
}

#[test]
fn baseline_page_without_counterpart_leaves_no_trace() {
    let current = vec![striped(2, &[1, 2]), striped(2, &[3, 4])];
    let baseline = vec![striped(2, &[1, 2]), striped(2, &[3, 4]), striped(2, &[5, 6])];
    let comparisons = PDFComparison::new().compare_pages(&current, &baseline);
    assert_eq!(comparisons, vec![Comparison::Identical, Comparison::Identical]);
    assert_eq!(PDFEditor::new().mark_differences(&comparisons).len(), 2);
    let through = PDFComparison::new().compare_pdfs(read(current), read(baseline)).unwrap();
    assert_eq!(through, vec![Comparison::Identical, Comparison::Identical]);
}

#[test]
fn document_without_baseline_is_flagged_page_by_page() {
    let comparisons = PDFComparison::new().without_baseline(3);
    assert_eq!(comparisons, vec![whole_page(), whole_page(), whole_page()]);
    assert!(PDFComparison::new().without_baseline(0).is_empty());
}

#[test]
fn opening_decides_what_follows() {
    let comparison = PDFComparison::new();
    assert!(matches!(comparison.after_opening(Ok(2), true), Opened::Render));
    match comparison.after_opening(Ok(2), false) {
        Opened::WithoutBaseline(pages) => assert_eq!(pages, vec![whole_page(), whole_page()]),
        _ => panic!("a document without baseline is flagged as a whole"),
    }
    assert!(matches!(
        comparison.after_opening(Err(PdfiumError::UnrecognizedPath), true),
        Opened::Failed(PDFComparisonError::UnableToLoadPDF(PdfiumError::UnrecognizedPath))
    ));
    assert!(matches!(
        comparison.after_opening(Err(PdfiumError::UnrecognizedPath), false),
        Opened::Failed(PDFComparisonError::UnableToLoadPDF(PdfiumError::UnrecognizedPath))
    ));
}

#[test]
fn rendered_pages_are_gathered_in_order() {
    let comparison = PDFComparison::new();
    let pages = comparison
        .extract_images(vec![
            PageRender::Rendered(solid(1, 1, 1)),
            PageRender::Rendered(solid(2, 2, 2)),
            PageRender::Rendered(solid(3, 3, 3)),
        ])
        .unwrap();
    let widths: Vec<u32> = pages.iter().map(|page| page.width()).collect();
    assert_eq!(widths, vec![1, 2, 3]);
    assert!(comparison.extract_images(Vec::new()).unwrap().is_empty());
}

#[test]
fn first_page_that_fails_fails_the_document() {
    let comparison = PDFComparison::new();
    let failed = comparison.extract_images(vec![
        PageRender::Rendered(solid(1, 1, 1)),
        PageRender::Failed(PdfiumError::UnknownBitmapFormat),
        PageRender::Missing(PdfiumError::PageIndexOutOfBounds),
    ]);
    assert!(matches!(
        failed,
        Err(PDFComparisonError::UnableToRenderPDF(PdfiumError::UnknownBitmapFormat))
    ));
    let missing = comparison.extract_images(vec![
        PageRender::Missing(PdfiumError::PageIndexOutOfBounds),
        PageRender::Failed(PdfiumError::UnknownBitmapFormat),
    ]);
    assert!(matches!(
        missing,
        Err(PDFComparisonError::PdfiumError(PdfiumError::PageIndexOutOfBounds))
    ));
}

#[test]
fn document_without_readable_baseline_is_flagged_on_every_page() {
    let comparison = PDFComparison::new();
    let baseline = Loaded::Unreadable(PdfiumError::UnrecognizedPath);
    let results = comparison.compare_pdfs(Loaded::Read(3, Vec::new()), baseline).unwrap();
    assert_eq!(results, vec![whole_page(), whole_page(), whole_page()]);
    let baseline = Loaded::Unreadable(PdfiumError::UnrecognizedPath);
    let rendered = read(vec![solid(1, 1, 0), solid(2, 2, 0)]);
    assert_eq!(comparison.compare_pdfs(rendered, baseline).unwrap(), vec![whole_page(), whole_page()]);
    let baseline = Loaded::Unreadable(PdfiumError::UnrecognizedPath);
    let failed = Loaded::Read(1, vec![PageRender::Failed(PdfiumError::UnknownBitmapFormat)]);
    assert_eq!(comparison.compare_pdfs(failed, baseline).unwrap(), vec![whole_page()]);
    let baseline = Loaded::Unreadable(PdfiumError::UnrecognizedPath);
    assert!(comparison.compare_pdfs(Loaded::Read(0, Vec::new()), baseline).unwrap().is_empty());
}

#[test]
fn unreadable_current_document_fails_the_comparison() {
    let comparison = PDFComparison::new();
    let current = Loaded::Unreadable(PdfiumError::UnrecognizedPath);
    assert!(matches!(
        comparison.compare_pdfs(current, read(vec![solid(1, 1, 0)])),
        Err(PDFComparisonError::UnableToLoadPDF(PdfiumError::UnrecognizedPath))
    ));
    let current = Loaded::Unreadable(PdfiumError::UnrecognizedPath);
    let baseline = Loaded::Unreadable(PdfiumError::PageIndexOutOfBounds);
    assert!(matches!(
        comparison.compare_pdfs(current, baseline),
        Err(PDFComparisonError::UnableToLoadPDF(PdfiumError::UnrecognizedPath))
    ));
}

#[test]
fn page_that_fails_to_render_fails_the_comparison() {
    let comparison = PDFComparison::new();
    let current = Loaded::Read(
        2,
        vec![
            PageRender::Rendered(solid(1, 1, 0)),
            PageRender::Failed(PdfiumError::UnknownBitmapFormat),
        ],
    );
    let baseline = Loaded::Read(1, vec![PageRender::Missing(PdfiumError::PageIndexOutOfBounds)]);
    assert!(matches!(
        comparison.compare_pdfs(current, baseline),
        Err(PDFComparisonError::UnableToRenderPDF(PdfiumError::UnknownBitmapFormat))
    ));
    let baseline = Loaded::Read(1, vec![PageRender::Missing(PdfiumError::PageIndexOutOfBounds)]);
    assert!(matches!(
        comparison.compare_pdfs(read(vec![solid(1, 1, 0)]), baseline),
        Err(PDFComparisonError::PdfiumError(PdfiumError::PageIndexOutOfBounds))
    ));
}

#[test]
fn pages_of_two_read_documents_are_compared() {
    let comparison = PDFComparison::new();
    let current = read(vec![striped(2, &[1, 2]), solid(3, 3, 0), striped(2, &[7])]);
    let baseline = read(vec![striped(2, &[1, 2]), striped(2, &[8])]);
    assert_eq!(
        comparison.compare_pdfs(current, baseline).unwrap(),
        vec![Comparison::Identical, whole_page(), whole_page()]
    );
}
