//! The command-line surface as plain data: a parsed invocation and its
//! subcommands. Argument parsing and dispatch live outside the library; the
//! library only defines what an invocation carries.

use vstd::prelude::*;

use crate::export::ExportFormat;

verus! {

/// A parsed command-line invocation.
pub struct Cli {
    pub command: Commands,
}

/// The subcommands the tool offers. Paths are carried as plain strings.
pub enum Commands {
    /// Show basic information about a PDF: page count and metadata.
    Info { pdf_path: String },
    /// List the pages of a PDF, optionally with their text.
    Pages { pdf_path: String, content: bool },
    /// Extract text and matches by keyword, pattern and page selection.
    Extract {
        pdf_path: String,
        keyword: Option<String>,
        regex: Option<String>,
        pages: Option<String>,
        context: usize,
        format: ExportFormat,
        output: Option<String>,
    },
    /// Process several PDFs in a batch.
    Batch {
        paths: Vec<String>,
        keyword: Option<String>,
        regex: Option<String>,
        format: ExportFormat,
        output_dir: String,
    },
    /// Search a PDF interactively for a query string.
    Search { pdf_path: String, query: String, ignore_case: bool, context: bool },
}

} // verus!
