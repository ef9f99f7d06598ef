use sca_rates::enrich::enrich_records;
use sca_rates::enrich::EnrichmentRow;
use sca_rates::escape::escape_single_quotes;
use sca_rates::join::key_by_code;
use sca_rates::num::i32_to_string;
use sca_rates::num::u64_to_string;
use sca_rates::rate::Rate;
use sca_rates::records::records_from_rows;
use sca_rates::records::RateRecord;
use sca_rates::records::TableError;

fn rec(code: &str, title: &str, rate: &str, desc: &str) -> RateRecord {
    RateRecord {
        occupation_code: code.to_string(),
        title: title.to_string(),
        rate: Rate { text: rate.to_string() },
        description: desc.to_string(),
    }
}

fn strings(fields: &[&str]) -> Vec<String> {
    fields.iter().map(|f| f.to_string()).collect()
}

#[test]
fn escape_leaves_plain_text() {
    assert_eq!(escape_single_quotes("Cook"), "Cook");
    assert_eq!(escape_single_quotes(""), "");
}

#[test]
fn escape_doubles_each_quote() {
    assert_eq!(escape_single_quotes("Joe's diner"), "Joe''s diner");
    assert_eq!(escape_single_quotes("'''"), "''''''");
    assert_eq!(escape_single_quotes("a'b'c"), "a''b''c");
}

#[test]
fn u64_renders_decimal() {
    assert_eq!(u64_to_string(0), "0");
    assert_eq!(u64_to_string(10), "10");
    assert_eq!(u64_to_string(2025), "2025");
}

#[test]
fn i32_renders_sign() {
    assert_eq!(i32_to_string(-42), "-42");
    assert_eq!(i32_to_string(2026), "2026");
    assert_eq!(i32_to_string(0), "0");
}

#[test]
fn rate_parse_normalizes() {
    assert_eq!(Rate::parse("12.50").unwrap().text, "12.5");
    assert_eq!(Rate::parse("007.100").unwrap().text, "7.1");
    assert_eq!(Rate::parse("12.00").unwrap().text, "12");
    assert_eq!(Rate::parse("0.125").unwrap().text, "0.125");
    assert_eq!(Rate::parse("000").unwrap().text, "0");
    assert_eq!(Rate::parse("12").unwrap().text, "12");
}

#[test]
fn rate_parse_rejects_bad_text() {
    assert!(Rate::parse("").is_none());
    assert!(Rate::parse("12.").is_none());
    assert!(Rate::parse(".5").is_none());
    assert!(Rate::parse("1.2.3").is_none());
    assert!(Rate::parse("12a").is_none());
    assert!(Rate::parse("abc").is_none());
    assert!(Rate::parse("-1").is_none());
    assert!(Rate::parse(".").is_none());
}

#[test]
fn records_built_in_row_order_with_empty_descriptions() {
    let header = strings(&["occupation_code", "title", "rate"]);
    let rows = vec![strings(&["A1", "Cook", "12.50"]), strings(&["B2", "Baker", "9.00"])];
    let recs = records_from_rows(&header, &rows).unwrap();
    assert_eq!(recs.len(), 2);
    assert_eq!(recs[0].occupation_code, "A1");
    assert_eq!(recs[0].title, "Cook");
    assert_eq!(recs[0].rate.text, "12.5");
    assert_eq!(recs[0].description, "");
    assert_eq!(recs[1].occupation_code, "B2");
    assert_eq!(recs[1].rate.text, "9");
}

#[test]
fn records_locate_columns_by_name() {
    let header = strings(&["title", "rate", "occupation_code"]);
    let rows = vec![strings(&["Cook", "12.50", "A1"])];
    let recs = records_from_rows(&header, &rows).unwrap();
    assert_eq!(recs[0].occupation_code, "A1");
    assert_eq!(recs[0].title, "Cook");
    assert_eq!(recs[0].rate.text, "12.5");
}

#[test]
fn records_reject_missing_header() {
    let header = strings(&["code", "title", "rate"]);
    let rows = vec![strings(&["A1", "Cook", "12.50"])];
    assert!(matches!(records_from_rows(&header, &rows), Err(TableError::MissingHeader)));
}

#[test]
fn records_reject_short_row() {
    let header = strings(&["occupation_code", "title", "rate"]);
    let rows = vec![strings(&["A1", "Cook", "12.50"]), strings(&["B2", "Baker"])];
    assert!(matches!(records_from_rows(&header, &rows), Err(TableError::MissingField { row: 1 })));
}

#[test]
fn records_reject_bad_rate() {
    let header = strings(&["occupation_code", "title", "rate"]);
    let rows = vec![strings(&["A1", "Cook", "12.50"]), strings(&["B2", "Baker", "cheap"])];
    assert!(matches!(records_from_rows(&header, &rows), Err(TableError::BadRate { row: 1 })));
}

#[test]
fn keyed_join_keeps_unique_codes_in_order() {
    let records = vec![rec("A1", "Cook", "12.5", ""), rec("B2", "Baker", "9", "")];
    let keyed = key_by_code(&records);
    assert_eq!(keyed.len(), 2);
    assert_eq!(keyed[0].occupation_code, "A1");
    assert_eq!(keyed[1].occupation_code, "B2");
}

#[test]
fn keyed_join_last_write_wins_at_first_position() {
    let records = vec![
        rec("A1", "Cook", "12.5", ""),
        rec("B2", "Baker", "9", ""),
        rec("A1", "Chef", "20", ""),
    ];
    let keyed = key_by_code(&records);
    assert_eq!(keyed.len(), 2);
    assert_eq!(keyed[0].occupation_code, "A1");
    assert_eq!(keyed[0].title, "Chef");
    assert_eq!(keyed[0].rate.text, "20");
    assert_eq!(keyed[1].occupation_code, "B2");
}

#[test]
fn enrichment_escapes_matched_description() {
    let mut records = vec![rec("A1", "Cook", "12.5", "")];
    let pairs = vec![EnrichmentRow {
        occupation_code: "A1".to_string(),
        description: "Joe's diner".to_string(),
    }];
    enrich_records(&mut records, &pairs);
    assert_eq!(records.len(), 1);
    assert_eq!(records[0].description, "Joe''s diner");
    assert_eq!(records[0].title, "Cook");
    assert_eq!(records[0].rate.text, "12.5");
}

#[test]
fn enrichment_ignores_unmatched_row() {
    let mut records = vec![rec("A1", "Cook", "12.5", "")];
    let pairs = vec![EnrichmentRow {
        occupation_code: "Z9".to_string(),
        description: "nowhere".to_string(),
    }];
    enrich_records(&mut records, &pairs);
    assert_eq!(records.len(), 1);
    assert_eq!(records[0].occupation_code, "A1");
    assert_eq!(records[0].description, "");
}

#[test]
fn enrichment_without_rows_changes_nothing() {
    let mut records = vec![rec("A1", "Cook", "12.5", "")];
    let pairs: Vec<EnrichmentRow> = vec![];
    enrich_records(&mut records, &pairs);
    assert_eq!(records.len(), 1);
    assert_eq!(records[0].description, "");
}

#[test]
fn enrichment_last_matching_row_wins() {
    let mut records = vec![rec("A1", "Cook", "12.5", "")];
    let pairs = vec![
        EnrichmentRow { occupation_code: "A1".to_string(), description: "old".to_string() },
        EnrichmentRow { occupation_code: "A1".to_string(), description: "new".to_string() },
    ];
    enrich_records(&mut records, &pairs);
    assert_eq!(records[0].description, "new");
}
