//! Change detection and visual diffing for rendered documents.
//!
//! The crate holds the decisions of the engine: which files of a tracked
//! directory need another look, which page of a baseline document a page of
//! the current document matches, which rows of the two differ, which pages
//! of the rewritten document go and which are marked, and what the marker
//! looks like. Reading directories and loading, rendering and saving
//! documents is left to the caller.

pub mod raster;
pub mod scan;
pub mod similarity;
pub mod matcher;
pub mod segments;
pub mod comparison;
pub mod editor;
pub mod errors;
pub mod files;
pub mod media;
pub mod names;
