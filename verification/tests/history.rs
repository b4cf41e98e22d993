use projector::history::{history_headings_cut_cleanly, parse_work_history_document, render_work_history_document};
use projector::models::WorkCategory;

const ENTRY: &str = "## 2026-07-23 14:05 \u{2014} Manual pull\n\n- Category: feature\n- Area: git\n\n### Summary\n\nAdded a pull button.\n\n### Limitations\n\nnone\n";

#[test]
fn structured_history_round_trips() {
    let parsed = parse_work_history_document(ENTRY);
    assert_eq!(parsed.entries.len(), 1);
    assert!(parsed.warnings.is_empty());
    let entry = &parsed.entries[0];
    assert_eq!(entry.title, "Manual pull");
    assert_eq!(entry.category, WorkCategory::Feature);
    assert_eq!((entry.occurred_at.year, entry.occurred_at.hour, entry.occurred_at.minute), (2026, 14, 5));
    assert_eq!(parsed.categories, vec![WorkCategory::Feature]);
    assert_eq!(parsed.areas, vec!["git".to_string()]);
    assert_eq!(render_work_history_document(&parsed), ENTRY);
}

#[test]
fn incomplete_entries_are_preserved_and_reported() {
    let parsed = parse_work_history_document("## 2026-07-23 \u{2014} Dated only\n\n- Area: git\n");
    assert!(parsed.entries.is_empty());
    let codes: Vec<&str> = parsed.warnings.iter().map(|w| w.code.as_str()).collect();
    assert!(codes.contains(&"nonstandard_history_heading"));
    assert!(codes.contains(&"missing_summary"));
    assert!(codes.contains(&"preserved_unrecognized_content"));
    assert!(parsed.preserved_content.unwrap().contains("Dated only"));
}

#[test]
fn headings_that_would_split_a_character_are_detected() {
    assert!(history_headings_cut_cleanly(ENTRY));
    assert!(!history_headings_cut_cleanly("## 2026-07-2\u{e9}3 x\n"));
}
