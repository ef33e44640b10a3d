use folder_organizer::condition::{evaluate, glob_match, parse, to_text};
use folder_organizer::config::Condition;

#[test]
fn test_glob_match() {
    assert!(glob_match("*.pdf", "report.pdf"));
    assert!(glob_match("*.PDF", "report.pdf")); // case-insensitive
    assert!(!glob_match("*.pdf", "report.doc"));
    assert!(glob_match("invoice*", "invoice_2026.pdf"));
    assert!(glob_match("*report*", "annual_report_v2.xlsx"));
    assert!(glob_match("?est.txt", "test.txt"));
    assert!(!glob_match("?est.txt", "arest.txt"));
    assert!(glob_match("*", "anything.xyz"));
}

#[test]
fn test_parse_simple() {
    let c = parse("*.pdf").unwrap();
    assert!(evaluate(&c, "report.pdf"));
    assert!(!evaluate(&c, "report.doc"));
}

#[test]
fn test_parse_and() {
    let c = parse("*.pdf AND *invoice*").unwrap();
    assert!(evaluate(&c, "invoice_2026.pdf"));
    assert!(!evaluate(&c, "report.pdf"));
    assert!(!evaluate(&c, "invoice.doc"));
}

#[test]
fn test_parse_or() {
    let c = parse("*.jpg OR *.png OR *.gif").unwrap();
    assert!(evaluate(&c, "photo.jpg"));
    assert!(evaluate(&c, "icon.png"));
    assert!(!evaluate(&c, "doc.pdf"));
}

#[test]
fn test_parse_not() {
    let c = parse("NOT *.tmp").unwrap();
    assert!(evaluate(&c, "report.pdf"));
    assert!(!evaluate(&c, "cache.tmp"));
}

#[test]
fn test_parse_grouped() {
    let c = parse("(*.pdf OR *.docx) AND *report*").unwrap();
    assert!(evaluate(&c, "annual_report.pdf"));
    assert!(evaluate(&c, "report_q1.docx"));
    assert!(!evaluate(&c, "annual_report.xlsx"));
    assert!(!evaluate(&c, "invoice.pdf"));
}

#[test]
fn test_parse_regex() {
    let c = parse(r"/^IMG_\d+\.jpg$/").unwrap();
    assert!(evaluate(&c, "IMG_1234.jpg"));
    assert!(!evaluate(&c, "photo.jpg"));
}

#[test]
fn test_roundtrip() {
    let cases = vec![
        "*.pdf",
        "*.pdf AND *invoice*",
        "*.jpg OR *.png",
        "NOT *.tmp",
        "(*.pdf OR *.docx) AND *report*",
    ];
    for input in cases {
        let cond = parse(input).unwrap();
        let text = to_text(&cond);
        let cond2 = parse(&text).unwrap();
        // Verify they evaluate the same
        assert_eq!(
            evaluate(&cond, "test_invoice.pdf"),
            evaluate(&cond2, "test_invoice.pdf"),
            "Roundtrip failed for: {}",
            input
        );
    }
}

#[test]
fn test_always() {
    let c = parse("*").unwrap();
    assert!(matches!(c, Condition::Always));
    assert!(evaluate(&c, "anything"));

    let c = parse("").unwrap();
    assert!(matches!(c, Condition::Always));
}
