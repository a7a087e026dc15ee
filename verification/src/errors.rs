//! What can go wrong while documents are compared and rewritten.
//!
//! The errors of the rendering engine and of the file system are carried
//! along as they came; this module only says at which step each one was
//! met.

use vstd::prelude::*;
use vstd::string::StringExecFns;
use pdfium_render::prelude::PdfiumError;

verus! {

/// `pdfium_render::prelude::PdfiumError`, the error of the rendering
/// engine, declared so that it can be carried in the errors below.
#[verifier::external_type_specification]
#[verifier::external_body]
pub struct ExPdfiumError(PdfiumError);

/// `std::io::Error`, declared so that it can be carried in the errors
/// below.
#[verifier::external_type_specification]
#[verifier::external_body]
pub struct ExIoError(std::io::Error);

/// Why two documents could not be compared.
#[derive(Debug)]
pub enum PDFComparisonError {
    /// The current document could not be loaded.
    UnableToLoadPDF(PdfiumError),
    /// A page could not be rendered.
    UnableToRenderPDF(PdfiumError),
    /// The engine failed at another step.
    PdfiumError(PdfiumError),
}

impl From<PdfiumError> for PDFComparisonError {
    fn from(value: PdfiumError) -> (error: Self) {
        PDFComparisonError::PdfiumError(value)
    }
}

impl vstd::std_specs::convert::FromSpecImpl<PdfiumError> for PDFComparisonError {
    open spec fn obeys_from_spec() -> bool {
        true
    }

    open spec fn from_spec(value: PdfiumError) -> Self {
        PDFComparisonError::PdfiumError(value)
    }
}

/// Why a document could not be rewritten.
#[derive(Debug)]
pub enum PDFEditorError {
    /// The document could not be loaded.
    UnableToLoadPDF(PdfiumError),
    /// The rewritten document could not be saved.
    UnableToSavePDF(PdfiumError),
    /// A marker could not be made or laid over its page.
    UnableToModifyPDF(PdfiumError),
    /// The engine failed at another step.
    PdfiumError(PdfiumError),
}

impl From<PdfiumError> for PDFEditorError {
    fn from(value: PdfiumError) -> (error: Self) {
        PDFEditorError::PdfiumError(value)
    }
}

impl vstd::std_specs::convert::FromSpecImpl<PdfiumError> for PDFEditorError {
    open spec fn obeys_from_spec() -> bool {
        true
    }

    open spec fn from_spec(value: PdfiumError) -> Self {
        PDFEditorError::PdfiumError(value)
    }
}

/// Why one file of a tracked location could not be brought up to date.
#[derive(Debug)]
pub enum FileManagerError {
    /// The file system failed.
    Io(std::io::Error),
    /// The file could not be compared with its baseline.
    PDFComparisonError(PDFComparisonError),
    /// The diff of the file could not be written.
    PDFEditorError(PDFEditorError),
}

impl From<std::io::Error> for FileManagerError {
    fn from(value: std::io::Error) -> (error: Self) {
        FileManagerError::Io(value)
    }
}

impl vstd::std_specs::convert::FromSpecImpl<std::io::Error> for FileManagerError {
    open spec fn obeys_from_spec() -> bool {
        true
    }

    open spec fn from_spec(value: std::io::Error) -> Self {
        FileManagerError::Io(value)
    }
}

impl From<PDFComparisonError> for FileManagerError {
    fn from(value: PDFComparisonError) -> (error: Self) {
        FileManagerError::PDFComparisonError(value)
    }
}

impl vstd::std_specs::convert::FromSpecImpl<PDFComparisonError> for FileManagerError {
    open spec fn obeys_from_spec() -> bool {
        true
    }

    open spec fn from_spec(value: PDFComparisonError) -> Self {
        FileManagerError::PDFComparisonError(value)
    }
}

impl From<PDFEditorError> for FileManagerError {
    fn from(value: PDFEditorError) -> (error: Self) {
        FileManagerError::PDFEditorError(value)
    }
}

impl vstd::std_specs::convert::FromSpecImpl<PDFEditorError> for FileManagerError {
    open spec fn obeys_from_spec() -> bool {
        true
    }

    open spec fn from_spec(value: PDFEditorError) -> Self {
        FileManagerError::PDFEditorError(value)
    }
}

/// The text that `PdfiumError` gives of itself through `Display`. Nothing
/// is claimed of what it says.
#[verifier::external_body]
fn engine_error_text(error: &PdfiumError) -> (text: String) {
    format!("{}", error)
}

/// The text that `std::io::Error` gives of itself through `Display`.
/// Nothing is claimed of what it says.
#[verifier::external_body]
fn io_error_text(error: &std::io::Error) -> (text: String) {
    format!("{}", error)
}

/// A message: what went wrong, followed by the details.
pub fn headed(heading: &str, detail: &str) -> (message: String)
    ensures
        message@ == heading@ + detail@,
{
    let mut message = String::from_str(heading);
    message.append(detail);
    message
}

impl PDFComparisonError {
    /// What went wrong, without the details.
    pub open spec fn heading(&self) -> Seq<char> {
        match *self {
            PDFComparisonError::UnableToLoadPDF(_) => "Was unable to load pdf: "@,
            PDFComparisonError::UnableToRenderPDF(_) => "Was unable to render a pdf. Error: "@,
            PDFComparisonError::PdfiumError(_) => "Unkown or unexpected pdfium error: "@,
        }
    }

    /// The error in words: its heading, followed by what the engine says
    /// of its own error.
    pub fn message(&self) -> (message: String)
        ensures
            self.heading().is_prefix_of(message@),
    {
        match self {
            PDFComparisonError::UnableToLoadPDF(e) => headed(
                "Was unable to load pdf: ",
                engine_error_text(e).as_str(),
            ),
            PDFComparisonError::UnableToRenderPDF(e) => headed(
                "Was unable to render a pdf. Error: ",
                engine_error_text(e).as_str(),
            ),
            PDFComparisonError::PdfiumError(e) => headed(
                "Unkown or unexpected pdfium error: ",
                engine_error_text(e).as_str(),
            ),
        }
    }
}

impl PDFEditorError {
    /// What went wrong, without the details.
    pub open spec fn heading(&self) -> Seq<char> {
        match *self {
            PDFEditorError::UnableToLoadPDF(_) => "Was unable to load a pdf. Error: "@,
            PDFEditorError::PdfiumError(_) => "Unkown or unexpected pdfium error: "@,
            PDFEditorError::UnableToSavePDF(_) => "Was unable to save the pdf: "@,
            PDFEditorError::UnableToModifyPDF(_) =>
                "Was unable to create pdf object or modify the pdf. Error: "@,
        }
    }

    /// The error in words: its heading, followed by what the engine says
    /// of its own error.
    pub fn message(&self) -> (message: String)
        ensures
            self.heading().is_prefix_of(message@),
    {
        match self {
            PDFEditorError::UnableToLoadPDF(e) => headed(
                "Was unable to load a pdf. Error: ",
                engine_error_text(e).as_str(),
            ),
            PDFEditorError::PdfiumError(e) => headed(
                "Unkown or unexpected pdfium error: ",
                engine_error_text(e).as_str(),
            ),
            PDFEditorError::UnableToSavePDF(e) => headed(
                "Was unable to save the pdf: ",
                engine_error_text(e).as_str(),
            ),
            PDFEditorError::UnableToModifyPDF(e) => headed(
                "Was unable to create pdf object or modify the pdf. Error: ",
                engine_error_text(e).as_str(),
            ),
        }
    }
}

impl FileManagerError {
    /// At which step it went wrong.
    pub open spec fn heading(&self) -> Seq<char> {
        match *self {
            FileManagerError::Io(_) => "IO Error: "@,
            FileManagerError::PDFComparisonError(e) => "PDFComparison Error: "@ + e.heading(),
            FileManagerError::PDFEditorError(e) => "PDFEditor Error: "@ + e.heading(),
        }
    }

    /// The error in words: the step at which it was met, followed by the
    /// words of the error met there.
    pub fn message(&self) -> (message: String)
        ensures
            self.heading().is_prefix_of(message@),
    {
        match self {
            FileManagerError::Io(e) => headed("IO Error: ", io_error_text(e).as_str()),
            FileManagerError::PDFComparisonError(e) => headed(
                "PDFComparison Error: ",
                e.message().as_str(),
            ),
            FileManagerError::PDFEditorError(e) => headed("PDFEditor Error: ", e.message().as_str()),
        }
    }
}

} // verus!
