//! Page-text extraction and context-windowed search inside PDF documents:
//! per-page text recovery with a whole-document fallback, keyword and
//! regular-expression line matching with context windows, page-range
//! selection, and rendering of the results as text, JSON or CSV.

pub mod cli;
pub mod content;
pub mod error;
pub mod export;
pub mod pagespec;
pub mod pdf;
pub mod scan;
pub mod text;

pub use error::AstraPdfError;
