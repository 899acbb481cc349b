use astrapdf::export::{ExportFormat, Exporter};
use astrapdf::pdf::{ExtractionResult, MatchResult};

fn create_test_results() -> Vec<ExtractionResult> {
    vec![
        ExtractionResult {
            page_number: 1,
            content: "This is test content with email test@example.com".to_string(),
            matches: vec![MatchResult {
                text: "test content".to_string(),
                context_before: "This is".to_string(),
                context_after: "with email".to_string(),
                page: 1,
                line_number: 1,
            }],
        },
        ExtractionResult {
            page_number: 2,
            content: "Second page content".to_string(),
            matches: vec![],
        },
    ]
}

#[test]
fn test_export_to_json() {
    let results = create_test_results();
    let exporter = Exporter::new(ExportFormat::Json);

    let content = exporter.render(&results).expect("JSON export should succeed");

    let parsed: serde_json::Value = serde_json::from_str(&content).expect("Should parse JSON");

    assert!(parsed["total_pages"].is_number());
    assert!(parsed["total_matches"].is_number());
    assert!(parsed["results"].is_array());

    assert_eq!(parsed["total_pages"].as_u64().unwrap(), 2);
    assert_eq!(parsed["total_matches"].as_u64().unwrap(), 1);
    let arr = parsed["results"].as_array().unwrap();
    assert_eq!(arr.len(), 2, "one results element per page");
    assert_eq!(arr[0]["page_number"].as_u64().unwrap(), 1);
    assert_eq!(arr[1]["page_number"].as_u64().unwrap(), 2);
}

#[test]
fn test_export_to_csv() {
    let results = create_test_results();
    let exporter = Exporter::new(ExportFormat::Csv);

    let content = exporter.render(&results).expect("CSV export should succeed");
    let lines: Vec<&str> = content.lines().collect();

    assert!(lines[0].contains("page_number"), "Should have page_number header");
    assert!(lines[0].contains("matched_text"), "Should have matched_text header");

    assert!(lines.len() >= 2, "Should have header and at least one data row");
}

#[test]
fn test_export_to_txt() {
    let results = create_test_results();
    let exporter = Exporter::new(ExportFormat::Txt);

    let content = exporter.render(&results).expect("TXT export should succeed");

    assert!(content.contains("ASTRAPDF"), "Should have header");
    assert!(content.contains("PAGE 1"), "Should have page 1");
    assert!(content.contains("Statistiques"), "Should have statistics");
}

#[test]
fn test_export_empty_results() {
    let results: Vec<ExtractionResult> = vec![];
    let exporter = Exporter::new(ExportFormat::Json);

    let content = exporter.render(&results).expect("Should export empty results");
    let parsed: serde_json::Value = serde_json::from_str(&content).expect("Should parse JSON");

    assert_eq!(parsed["total_pages"].as_u64().unwrap(), 0);
    assert_eq!(parsed["total_matches"].as_u64().unwrap(), 0);
    assert_eq!(parsed["results"].as_array().unwrap().len(), 0);
}

#[test]
fn test_export_format_variants() {
    let _txt = ExportFormat::Txt;
    let _json = ExportFormat::Json;
    let _csv = ExportFormat::Csv;

    let _exporter1 = Exporter::new(ExportFormat::Txt);
    let _exporter2 = Exporter::new(ExportFormat::Json);
    let _exporter3 = Exporter::new(ExportFormat::Csv);
}

#[test]
fn test_export_with_matches() {
    let results = vec![ExtractionResult {
        page_number: 1,
        content: "Content with multiple matches".to_string(),
        matches: vec![
            MatchResult {
                text: "match1".to_string(),
                context_before: "before1".to_string(),
                context_after: "after1".to_string(),
                page: 1,
                line_number: 1,
            },
            MatchResult {
                text: "match2".to_string(),
                context_before: "before2".to_string(),
                context_after: "after2".to_string(),
                page: 1,
                line_number: 2,
            },
        ],
    }];

    let exporter = Exporter::new(ExportFormat::Json);
    let content = exporter.render(&results).expect("Export with multiple matches should succeed");
    let parsed: serde_json::Value = serde_json::from_str(&content).expect("Should parse JSON");

    assert_eq!(parsed["total_matches"].as_u64().unwrap(), 2);
}

#[test]
fn test_json_round_trip_of_fields() {
    // Content with characters that need escaping, read back field by field.
    let results = vec![ExtractionResult {
        page_number: 7,
        content: "line \"one\"\nline\\two\ttabbed".to_string(),
        matches: vec![MatchResult {
            text: "line \"one\"".to_string(),
            context_before: String::new(),
            context_after: "line\\two\ttabbed".to_string(),
            page: 7,
            line_number: 1,
        }],
    }];
    let exporter = Exporter::new(ExportFormat::Json);
    let content = exporter.to_json(&results).expect("should render");
    let parsed: serde_json::Value = serde_json::from_str(&content).expect("valid JSON");
    assert_eq!(parsed["results"][0]["page_number"].as_u64().unwrap(), 7);
    assert_eq!(
        parsed["results"][0]["content"].as_str().unwrap(),
        "line \"one\"\nline\\two\ttabbed"
    );
    assert_eq!(
        parsed["results"][0]["matches"][0]["text"].as_str().unwrap(),
        "line \"one\""
    );
    assert_eq!(
        parsed["results"][0]["matches"][0]["context_after"].as_str().unwrap(),
        "line\\two\ttabbed"
    );
}

#[test]
fn test_csv_quoting_round_trip() {
    let results = vec![ExtractionResult {
        page_number: 3,
        content: String::new(),
        matches: vec![MatchResult {
            text: "a, \"quoted\" value".to_string(),
            context_before: "first\nsecond".to_string(),
            context_after: String::new(),
            page: 3,
            line_number: 9,
        }],
    }];
    let exporter = Exporter::new(ExportFormat::Csv);
    let content = exporter.to_csv(&results).expect("should render");

    let mut reader = csv::ReaderBuilder::new().from_reader(content.as_bytes());
    let headers = reader.headers().expect("headers").clone();
    assert_eq!(&headers[0], "page_number");
    assert_eq!(&headers[2], "matched_text");
    let rows: Vec<csv::StringRecord> = reader.records().map(|r| r.expect("row")).collect();
    assert_eq!(rows.len(), 1);
    assert_eq!(&rows[0][0], "3");
    assert_eq!(&rows[0][1], "9");
    assert_eq!(&rows[0][2], "a, \"quoted\" value");
    assert_eq!(&rows[0][3], "first\nsecond");
    assert_eq!(&rows[0][4], "");
}

#[test]
fn test_text_report_exact() {
    let results = vec![ExtractionResult {
        page_number: 1,
        content: "full text".to_string(),
        matches: vec![],
    }];
    let exporter = Exporter::new(ExportFormat::Txt);
    let content = exporter.to_text(&results).expect("should render");
    assert!(content.contains("   - Pages analysées: 1\n"));
    assert!(content.contains("   - Correspondances trouvées: 0\n"));
    assert!(content.contains("\nContenu complet:\nfull text\n"));
}
