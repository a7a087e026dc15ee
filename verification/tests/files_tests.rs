use document_diff::comparison::Comparison;
use document_diff::errors::{headed, FileManagerError, PDFComparisonError, PDFEditorError};
use document_diff::files::{Annotated, Compared, FileManager, RECHECK_SECONDS};
use document_diff::matcher::PDFComparison;
use document_diff::media::SignedMedia;
use document_diff::raster::Raster;
use document_diff::segments::{DifferenceSegments, Position};
use pdfium_render::prelude::PdfiumError;
use std::io::{Error, ErrorKind};

fn manager() -> FileManager<&'static str> {
    FileManager::new("./current", "./last", "./diff")
}

fn different() -> Comparison {
    Comparison::Different(DifferenceSegments {
        segments: vec![(
            Position { numerator: 0, denominator: 1 },
            Position { numerator: 1, denominator: 1 },
        )],
    })
}

#[test]
fn location_keeps_its_three_directories() {
    let manager = manager();
    assert_eq!(manager.current_path, "./current");
    assert_eq!(manager.last_path, "./last");
    assert_eq!(manager.diff_path, "./diff");
    assert_eq!(RECHECK_SECONDS, 60);
}

#[test]
fn file_changes_where_a_page_differs() {
    assert!(!FileManager::<&str>::has_changes(&vec![]));
    assert!(!FileManager::<&str>::has_changes(&vec![Comparison::Identical, Comparison::Identical]));
    assert!(FileManager::<&str>::has_changes(&vec![Comparison::Identical, different()]));
    assert!(FileManager::<&str>::has_changes(&vec![different(), Comparison::Identical]));
}

#[test]
fn unchanged_file_is_discarded() {
    let compared = Ok(vec![Comparison::Identical, Comparison::Identical]);
    let next = manager().generate_comparisons(compared, Some(b"a.pdf".as_slice()), 1);
    assert!(matches!(next, Compared::Discard));
}

#[test]
fn byte_identical_documents_give_no_diff() {
    let samples: Vec<u8> = (0..24).collect();
    let current = vec![Raster::from_samples(2, 4, samples.clone()).unwrap()];
    let baseline = vec![Raster::from_samples(2, 4, samples).unwrap()];
    let comparisons = PDFComparison::new().compare_pages(&current, &baseline);
    assert_eq!(comparisons, vec![Comparison::Identical]);
    let next = manager().generate_comparisons(Ok(comparisons), Some(b"a.pdf".as_slice()), 1);
    assert!(matches!(next, Compared::Discard));
}

#[test]
fn changed_file_is_annotated_into_a_named_diff() {
    let compared = Ok(vec![Comparison::Identical, different()]);
    match manager().generate_comparisons(compared, Some(b"a.pdf".as_slice()), 1700000000) {
        Compared::Annotate(pages, name) => {
            assert_eq!(pages, vec![Comparison::Identical, different()]);
            assert_eq!(name, b"a.pdf.diff.1700000000.pdf".to_vec());
        }
        _ => panic!("a file with a page that differs is annotated"),
    }
}

#[test]
fn new_file_is_annotated_on_every_page() {
    let comparisons = PDFComparison::new().without_baseline(2);
    match manager().generate_comparisons(Ok(comparisons), None, 7) {
        Compared::Annotate(pages, name) => {
            assert_eq!(pages, vec![different(), different()]);
            assert_eq!(name, b"unknown_filename.diff.7.pdf".to_vec());
        }
        _ => panic!("a new file is annotated"),
    }
}

#[test]
fn failed_comparison_is_the_result_of_its_file() {
    let compared = Err(PDFComparisonError::UnableToLoadPDF(PdfiumError::UnrecognizedPath));
    let next = manager().generate_comparisons(compared, Some(b"a.pdf".as_slice()), 1);
    assert!(matches!(
        next,
        Compared::Failed(FileManagerError::PDFComparisonError(PDFComparisonError::UnableToLoadPDF(
            PdfiumError::UnrecognizedPath
        )))
    ));
}

#[test]
fn written_diff_leads_to_promotion() {
    let next = manager().generate_updated_pdfs("./diff/a.pdf.diff.1.pdf", Ok(()));
    assert!(matches!(next, Annotated::Promote("./diff/a.pdf.diff.1.pdf")));
}

#[test]
fn unwritten_diff_leaves_the_baseline() {
    let written = Err(PDFEditorError::UnableToSavePDF(PdfiumError::UnrecognizedPath));
    let next = manager().generate_updated_pdfs("./diff/a.pdf.diff.1.pdf", written);
    assert!(matches!(
        next,
        Annotated::Failed(FileManagerError::PDFEditorError(PDFEditorError::UnableToSavePDF(
            PdfiumError::UnrecognizedPath
        )))
    ));
}

#[test]
fn promoted_file_reports_its_diff() {
    let result = manager().update_changed_pdfs("./diff/a.pdf.diff.1.pdf", Ok(()));
    assert!(matches!(result, Ok("./diff/a.pdf.diff.1.pdf")));
}

#[test]
fn failed_copy_is_an_io_error() {
    let copied = Err(Error::new(ErrorKind::PermissionDenied, "read only"));
    match manager().update_changed_pdfs("./diff/a.pdf.diff.1.pdf", copied) {
        Err(FileManagerError::Io(error)) => assert_eq!(error.kind(), ErrorKind::PermissionDenied),
        _ => panic!("a failed copy is reported"),
    }
}

#[test]
fn errors_convert_into_the_error_of_their_step() {
    assert!(matches!(
        PDFComparisonError::from(PdfiumError::UnknownFormType),
        PDFComparisonError::PdfiumError(PdfiumError::UnknownFormType)
    ));
    assert!(matches!(
        PDFEditorError::from(PdfiumError::UnknownFormType),
        PDFEditorError::PdfiumError(PdfiumError::UnknownFormType)
    ));
    assert!(matches!(
        FileManagerError::from(Error::new(ErrorKind::NotFound, "gone")),
        FileManagerError::Io(_)
    ));
    assert!(matches!(
        FileManagerError::from(PDFComparisonError::PdfiumError(PdfiumError::UnknownFormType)),
        FileManagerError::PDFComparisonError(PDFComparisonError::PdfiumError(_))
    ));
    assert!(matches!(
        FileManagerError::from(PDFEditorError::PdfiumError(PdfiumError::UnknownFormType)),
        FileManagerError::PDFEditorError(PDFEditorError::PdfiumError(_))
    ));
}

#[test]
fn messages_start_with_what_went_wrong() {
    let engine = format!("{}", PdfiumError::UnrecognizedPath);
    assert_eq!(
        PDFComparisonError::UnableToLoadPDF(PdfiumError::UnrecognizedPath).message(),
        format!("Was unable to load pdf: {}", engine)
    );
    assert_eq!(
        PDFComparisonError::UnableToRenderPDF(PdfiumError::UnrecognizedPath).message(),
        format!("Was unable to render a pdf. Error: {}", engine)
    );
    assert_eq!(
        PDFComparisonError::PdfiumError(PdfiumError::UnrecognizedPath).message(),
        format!("Unkown or unexpected pdfium error: {}", engine)
    );
    assert_eq!(
        PDFEditorError::UnableToLoadPDF(PdfiumError::UnrecognizedPath).message(),
        format!("Was unable to load a pdf. Error: {}", engine)
    );
    assert_eq!(
        PDFEditorError::UnableToSavePDF(PdfiumError::UnrecognizedPath).message(),
        format!("Was unable to save the pdf: {}", engine)
    );
    assert_eq!(
        PDFEditorError::UnableToModifyPDF(PdfiumError::UnrecognizedPath).message(),
        format!("Was unable to create pdf object or modify the pdf. Error: {}", engine)
    );
    assert_eq!(
        PDFEditorError::PdfiumError(PdfiumError::UnrecognizedPath).message(),
        format!("Unkown or unexpected pdfium error: {}", engine)
    );
}

#[test]
fn messages_of_a_cycle_name_the_step() {
    let engine = format!("{}", PdfiumError::UnrecognizedPath);
    let io = Error::new(ErrorKind::NotFound, "gone");
    let io_text = format!("{}", io);
    assert_eq!(FileManagerError::Io(io).message(), format!("IO Error: {}", io_text));
    assert_eq!(
        FileManagerError::PDFComparisonError(PDFComparisonError::UnableToLoadPDF(
            PdfiumError::UnrecognizedPath
        ))
        .message(),
        format!("PDFComparison Error: Was unable to load pdf: {}", engine)
    );
    assert_eq!(
        FileManagerError::PDFEditorError(PDFEditorError::UnableToSavePDF(
            PdfiumError::UnrecognizedPath
        ))
        .message(),
        format!("PDFEditor Error: Was unable to save the pdf: {}", engine)
    );
    assert_eq!(headed("a: ", "b"), "a: b".to_string());
}

#[test]
fn signed_media_keeps_path_and_signature() {
    let media = SignedMedia::new("./diff/a.pdf".to_string(), "c2lnbmVk".to_string());
    assert_eq!(media.path(), "./diff/a.pdf");
    assert_eq!(media.signature(), "c2lnbmVk");
    let copy = media.clone();
    assert_eq!(copy.path(), "./diff/a.pdf");
}
