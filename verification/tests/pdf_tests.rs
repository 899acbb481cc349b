use astrapdf::pdf::{ExtractionResult, MatchResult, PdfAnalyzer};
use lopdf::{Dictionary, Document, Object, Stream};

/// Build a small PDF in memory, one page per content stream given.
fn build_pdf(pages: &[&str]) -> Vec<u8> {
    let mut doc = Document::with_version("1.5");
    let pages_id = doc.new_object_id();

    let mut font = Dictionary::new();
    font.set("Type", Object::from("Font"));
    font.set("Subtype", Object::from("Type1"));
    font.set("BaseFont", Object::from("Courier"));
    let font_id = doc.add_object(font);

    let mut fonts = Dictionary::new();
    fonts.set("F1", Object::Reference(font_id));
    let mut resources = Dictionary::new();
    resources.set("Font", Object::Dictionary(fonts));
    let resources_id = doc.add_object(resources);

    let mut kids: Vec<Object> = Vec::new();
    for content in pages {
        let stream = Stream::new(Dictionary::new(), content.as_bytes().to_vec());
        let content_id = doc.add_object(stream);
        let mut page = Dictionary::new();
        page.set("Type", Object::from("Page"));
        page.set("Parent", Object::Reference(pages_id));
        page.set("Contents", Object::Reference(content_id));
        page.set(
            "MediaBox",
            Object::Array(vec![
                Object::Integer(0),
                Object::Integer(0),
                Object::Integer(612),
                Object::Integer(792),
            ]),
        );
        page.set("Resources", Object::Reference(resources_id));
        kids.push(Object::Reference(doc.add_object(page)));
    }

    let mut pages_dict = Dictionary::new();
    pages_dict.set("Type", Object::from("Pages"));
    pages_dict.set("Count", Object::Integer(kids.len() as i64));
    pages_dict.set("Kids", Object::Array(kids));
    doc.objects.insert(pages_id, Object::Dictionary(pages_dict));

    let mut catalog = Dictionary::new();
    catalog.set("Type", Object::from("Catalog"));
    catalog.set("Pages", Object::Reference(pages_id));
    let catalog_id = doc.add_object(catalog);
    doc.trailer.set("Root", Object::Reference(catalog_id));

    let mut bytes: Vec<u8> = Vec::new();
    doc.save_to(&mut bytes).expect("should serialize the test PDF");
    bytes
}

/// Open an analyzer the way the application shell does: with the
/// whole-document fallback text computed once from the same bytes.
fn open_analyzer(bytes: Vec<u8>) -> PdfAnalyzer {
    let fallback = pdf_extract::extract_text_from_mem(&bytes).ok();
    PdfAnalyzer::new(bytes, fallback).expect("Failed to create analyzer")
}

fn invoice_pdf() -> Vec<u8> {
    build_pdf(&[
        "BT\n/F1 12 Tf\n72 720 Td\n(Facture Payo365) Tj\n72 700 Td\n(Contact: billing@payo365.com) Tj\nET",
        "BT\n/F1 12 Tf\n72 720 Td\n(Page deux sans grand contenu) Tj\nET",
    ])
}

#[test]
fn test_pdf_analyzer_new() {
    let result = PdfAnalyzer::new(invoice_pdf(), None);
    assert!(result.is_ok(), "PdfAnalyzer should be created successfully");
}

#[test]
fn test_pdf_analyzer_new_invalid_path() {
    let result = PdfAnalyzer::new(b"not a pdf at all".to_vec(), None);
    assert!(result.is_err(), "PdfAnalyzer should fail on invalid path");
}

#[test]
fn test_extract_with_keyword() {
    let analyzer = open_analyzer(invoice_pdf());

    let keyword = Some("Payo365".to_string());
    let results = analyzer.extract(&keyword, &None, &None, 2, false);

    assert!(results.is_ok(), "Extract should succeed");
    let results = results.unwrap();

    assert!(!results.is_empty(), "Should have at least one result page");

    let total_matches: usize = results.iter().map(|r| r.matches.len()).sum();
    assert!(total_matches > 0, "Should find at least one match for 'Payo365'");
}

#[test]
fn test_extract_with_regex() {
    let analyzer = open_analyzer(invoice_pdf());

    let regex = Some(r"\b[A-Za-z0-9._%+-]+@[A-Za-z0-9.-]+\.[A-Z|a-z]{2,}\b".to_string());
    let results = analyzer.extract(&None, &regex, &None, 2, false);

    assert!(results.is_ok(), "Extract with regex should succeed");
    let results = results.unwrap();

    let total_matches: usize = results.iter().map(|r| r.matches.len()).sum();
    assert!(total_matches > 0, "Should find at least one email");
}

#[test]
fn test_extract_no_matches() {
    let analyzer = open_analyzer(invoice_pdf());

    let keyword = Some("INEXISTANT_KEYWORD_12345".to_string());
    let results = analyzer.extract(&keyword, &None, &None, 2, false);

    assert!(results.is_ok(), "Extract should succeed even with no matches");
    let results = results.unwrap();

    let total_matches: usize = results.iter().map(|r| r.matches.len()).sum();
    assert_eq!(total_matches, 0, "Should have zero matches");
}

#[test]
fn test_page_range_parsing() {
    let analyzer = open_analyzer(invoice_pdf());

    let pages = Some("1".to_string());
    let results = analyzer.extract(&None, &None, &pages, 0, false);

    assert!(results.is_ok(), "Extract with page spec should succeed");
    let results = results.unwrap();

    assert_eq!(results.len(), 1, "Should extract exactly 1 page");
    assert_eq!(results[0].page_number, 1, "Should be page 1");
}

#[test]
fn test_extraction_result_structure() {
    let result = ExtractionResult {
        page_number: 1,
        content: "Test content".to_string(),
        matches: vec![MatchResult {
            text: "match text".to_string(),
            context_before: "before".to_string(),
            context_after: "after".to_string(),
            page: 1,
            line_number: 1,
        }],
    };

    assert_eq!(result.page_number, 1);
    assert_eq!(result.content, "Test content");
    assert_eq!(result.matches.len(), 1);
    assert_eq!(result.matches[0].text, "match text");
}

#[test]
fn test_invalid_regex() {
    let analyzer = open_analyzer(invoice_pdf());

    let regex = Some("[invalid regex(".to_string());
    let results = analyzer.extract(&None, &regex, &None, 2, false);

    assert!(results.is_err(), "Should fail with invalid regex");
}

#[test]
fn test_page_count_and_metadata() {
    let mut bytes = invoice_pdf();
    // Re-open, add an Info dictionary held inline in the trailer, and save.
    let mut doc = Document::load_mem(&bytes).expect("should reload");
    let mut info = Dictionary::new();
    info.set("Title", Object::string_literal("Facture"));
    doc.trailer.set("Info", Object::Dictionary(info));
    bytes.clear();
    doc.save_to(&mut bytes).expect("should save");

    let analyzer = open_analyzer(bytes);
    assert_eq!(analyzer.get_page_count(), 2);
    let metadata = analyzer.get_metadata();
    assert!(metadata.iter().any(|(k, v)| k == "Title" && v.contains("Facture")));
}

#[test]
fn test_extracted_text_is_decoded() {
    let pdf = build_pdf(&["BT\n/F1 12 Tf\n(Solde: 12\\(EUR\\)) Tj\nET"]);
    let analyzer = open_analyzer(pdf);
    let text = analyzer.extract_text_from_page(1).expect("page text");
    assert_eq!(text, "Solde: 12(EUR)");
}

#[test]
fn test_fallback_on_page_without_text_operators() {
    // A page whose content stream shows no text: the structural scan yields
    // nothing and the whole-document extractor takes over.
    let pdf = build_pdf(&[""]);
    let analyzer = open_analyzer(pdf);
    let text = analyzer.extract_text_from_page(1);
    assert!(text.is_ok(), "the whole-document fallback should succeed");
}

#[test]
fn test_missing_fallback_gives_typed_error() {
    // No structural text on the page and no fallback supplied: the call
    // reports a typed extraction error instead of aborting.
    let pdf = build_pdf(&[""]);
    let analyzer = PdfAnalyzer::new(pdf, None).expect("should open");
    let text = analyzer.extract_text_from_page(1);
    assert!(text.is_err(), "no text source left must be a typed error");
    match text {
        Err(astrapdf::AstraPdfError::ExtractionError(_)) => {}
        _ => panic!("expected an extraction error"),
    }
}

#[test]
fn test_full_dump_keeps_every_page() {
    let pdf = build_pdf(&[
        "BT\n/F1 12 Tf\n(premier) Tj\nET",
        "BT\n/F1 12 Tf\n(deuxieme) Tj\nET",
        "BT\n/F1 12 Tf\n(troisieme) Tj\nET",
    ]);
    let analyzer = open_analyzer(pdf);
    let results = analyzer.extract(&None, &None, &None, 2, false).expect("full dump succeeds");
    assert_eq!(results.len(), 3, "every page appears without a query");
    for (i, r) in results.iter().enumerate() {
        assert_eq!(r.page_number as usize, i + 1);
        assert!(r.matches.is_empty(), "full dump carries no match records");
        assert!(!r.content.is_empty(), "full dump keeps the page text");
    }
}

#[test]
fn test_unmatched_pages_are_omitted() {
    let analyzer = open_analyzer(invoice_pdf());
    let keyword = Some("ZZZ_NOT_PRESENT".to_string());
    let results = analyzer.extract(&keyword, &None, &None, 2, false).expect("extract succeeds");
    assert_eq!(results.len(), 0, "pages without matches are omitted when a query is active");
}

#[test]
fn test_keyword_and_regex_give_separate_matches() {
    let analyzer = open_analyzer(invoice_pdf());
    let keyword = Some("Payo365".to_string());
    let regex = Some("Payo365".to_string());
    let results = analyzer.extract(&keyword, &regex, &None, 0, false).expect("extract succeeds");
    let total: usize = results.iter().map(|r| r.matches.len()).sum();
    assert_eq!(total % 2, 0, "each hit line is recorded once per query mode");
    assert!(total >= 2, "the line matching both queries appears twice");
}

#[test]
fn test_search_finds_lines() {
    let analyzer = open_analyzer(invoice_pdf());
    let hits = analyzer.search("payo365", true).expect("search should succeed");
    assert_eq!(hits.len(), 2, "one entry per page");
    let total: usize = hits.iter().map(|h| h.hits.len()).sum();
    assert!(total >= 1, "should find the query on page 1");
    assert_eq!(hits[0].page, 1);
    for h in &hits[0].hits {
        assert!(h.line.to_lowercase().contains("payo365"));
    }
}
