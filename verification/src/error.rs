use vstd::prelude::*;
use vstd::string::StringExecFns;

verus! {

/// The typed errors that the analysis and export operations return.
#[derive(Debug, Clone)]
pub enum AstraPdfError {
    /// The PDF container could not be opened.
    PdfOpenError(String),
    /// Text extraction failed, including the whole-document fallback.
    ExtractionError(String),
    /// An export rendering could not be produced.
    ExportError(String),
    /// The regular expression pattern does not compile.
    RegexError(String),
    /// A page-range specification token could not be parsed.
    PageSpecParseError(String),
    /// An underlying byte-level read failed.
    IoError(String),
    /// The PDF object structure could not be read.
    LopdfError(String),
}

impl AstraPdfError {
    /// The detail string carried by this error.
    pub open spec fn spec_detail(&self) -> Seq<char> {
        match self {
            AstraPdfError::PdfOpenError(s) => s@,
            AstraPdfError::ExtractionError(s) => s@,
            AstraPdfError::ExportError(s) => s@,
            AstraPdfError::RegexError(s) => s@,
            AstraPdfError::PageSpecParseError(s) => s@,
            AstraPdfError::IoError(s) => s@,
            AstraPdfError::LopdfError(s) => s@,
        }
    }

    /// The message prefix that introduces each error kind.
    pub open spec fn spec_prefix(&self) -> Seq<char> {
        match self {
            AstraPdfError::PdfOpenError(_) => "Erreur d'ouverture du fichier PDF: "@,
            AstraPdfError::ExtractionError(_) => "Erreur d'extraction du texte: "@,
            AstraPdfError::ExportError(_) => "Erreur d'export: "@,
            AstraPdfError::RegexError(_) => "Pattern regex invalide: "@,
            AstraPdfError::PageSpecParseError(_) => "Erreur de parsing des pages: "@,
            AstraPdfError::IoError(_) => "Erreur I/O: "@,
            AstraPdfError::LopdfError(_) => "Erreur de parsing PDF: "@,
        }
    }

    /// A human-readable message: the kind's prefix followed by the detail.
    pub fn message(&self) -> (r: String)
        ensures
            r@ == self.spec_prefix() + self.spec_detail(),
    {
        let prefix: &str = match self {
            AstraPdfError::PdfOpenError(_) => "Erreur d'ouverture du fichier PDF: ",
            AstraPdfError::ExtractionError(_) => "Erreur d'extraction du texte: ",
            AstraPdfError::ExportError(_) => "Erreur d'export: ",
            AstraPdfError::RegexError(_) => "Pattern regex invalide: ",
            AstraPdfError::PageSpecParseError(_) => "Erreur de parsing des pages: ",
            AstraPdfError::IoError(_) => "Erreur I/O: ",
            AstraPdfError::LopdfError(_) => "Erreur de parsing PDF: ",
        };
        let detail: &str = match self {
            AstraPdfError::PdfOpenError(s) => s.as_str(),
            AstraPdfError::ExtractionError(s) => s.as_str(),
            AstraPdfError::ExportError(s) => s.as_str(),
            AstraPdfError::RegexError(s) => s.as_str(),
            AstraPdfError::PageSpecParseError(s) => s.as_str(),
            AstraPdfError::IoError(s) => s.as_str(),
            AstraPdfError::LopdfError(s) => s.as_str(),
        };
        let mut out = String::from_str(prefix);
        out.append(detail);
        out
    }
}

} // verus!
