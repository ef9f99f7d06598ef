use sca_rates::pipeline::apply_year_policy;
use sca_rates::pipeline::generate_script;
use sca_rates::pipeline::output_file_name;
use sca_rates::pipeline::parse_table;
use sca_rates::pipeline::YearPolicy;
use sca_rates::pipeline::COMMA;
use sca_rates::pipeline::PIPE;
use sca_rates::rate::Rate;
use sca_rates::records::RateRecord;
use sca_rates::records::TableError;
use sca_rates::sql::render_script;
use sca_rates::sql::StatementShape;
use sca_rates::sql::WrapperStyle;

fn rec(code: &str, title: &str, rate: &str, desc: &str) -> RateRecord {
    RateRecord {
        occupation_code: code.to_string(),
        title: title.to_string(),
        rate: Rate { text: rate.to_string() },
        description: desc.to_string(),
    }
}

const SOURCE: &str = "occupation_code|title|rate\nA1|Cook|12.50\n";
const ENRICHMENT: &str = "occupation_code,description\nA1,Joe's diner\n";

#[test]
fn insert_script_renders_exactly() {
    let records = vec![rec("A1", "Cook", "12.5", "")];
    let script = render_script(
        &records,
        2025,
        StatementShape::InsertOnly,
        WrapperStyle::ExistenceGuard,
    );
    let expected = "IF NOT EXISTS (SELECT 1 FROM Jobs WHERE YEAR = 2025)\nBEGIN\n\nINSERT INTO dbo.Jobs (JobGuid, JobCode, JobTitle, Description, HourlyWageRate, IsSCAJob, CreatedDate, Year)\nVALUES (NEWID(), 'A1', 'Cook', '', 12.5, 1, GETUTCDATE(), '2025')\n\nEND;\n";
    assert_eq!(script, expected);
    assert_eq!(script.matches("INSERT INTO").count(), 1);
}

#[test]
fn upsert_script_checks_then_updates() {
    let records = vec![rec("A1", "Cook", "12.5", "")];
    let script = render_script(&records, 2025, StatementShape::Upsert, WrapperStyle::ExistenceGuard);
    assert!(script.contains("IF NOT EXISTS (SELECT 1 FROM dbo.Jobs WHERE JobCode = 'A1' AND Year = '2025')"));
    assert!(script.contains("UPDATE dbo.Jobs SET HourlyWageRate = 12.5 WHERE JobCode = 'A1' AND Year = '2025'"));
    assert_eq!(script.matches("INSERT INTO").count(), 1);
}

#[test]
fn transaction_wrapper_opens_and_closes() {
    let records = vec![rec("A1", "Cook", "12.5", "")];
    let script = render_script(&records, 2025, StatementShape::InsertOnly, WrapperStyle::Transaction);
    assert!(script.starts_with("BEGIN TRANSACTION;\n\n"));
    assert!(script.ends_with("COMMIT;\n"));
}

#[test]
fn one_block_per_record() {
    let records = vec![
        rec("A1", "Cook", "12.5", ""),
        rec("B2", "Baker", "9", ""),
        rec("C3", "Chef", "20.75", ""),
    ];
    let script = render_script(
        &records,
        2026,
        StatementShape::InsertOnly,
        WrapperStyle::ExistenceGuard,
    );
    assert_eq!(script.matches("INSERT INTO").count(), 3);
}

#[test]
fn parse_table_splits_header_and_rows() {
    let data = b"a|b\nc|d\ne|f\n".to_vec();
    let (header, rows) = parse_table(&data, PIPE).unwrap();
    assert_eq!(header, vec!["a".to_string(), "b".to_string()]);
    assert_eq!(rows, vec![
        vec!["c".to_string(), "d".to_string()],
        vec!["e".to_string(), "f".to_string()],
    ]);
}

#[test]
fn parse_table_honors_quoting() {
    let data = b"a,b\n\"x,y\",z\n".to_vec();
    let (_, rows) = parse_table(&data, COMMA).unwrap();
    assert_eq!(rows, vec![vec!["x,y".to_string(), "z".to_string()]]);
}

#[test]
fn generate_without_enrichment() {
    let source = SOURCE.as_bytes().to_vec();
    let script = generate_script(
        &source,
        None,
        2025,
        StatementShape::InsertOnly,
        WrapperStyle::ExistenceGuard,
    )
    .unwrap();
    assert_eq!(script.matches("INSERT INTO").count(), 1);
    assert!(script.contains("'A1'"));
    assert!(script.contains("'Cook'"));
    assert!(script.contains(", 12.5,"));
    assert!(script.contains("'', 12.5"));
}

#[test]
fn generate_with_enrichment_doubles_quotes_once() {
    let source = SOURCE.as_bytes().to_vec();
    let enrichment = ENRICHMENT.as_bytes().to_vec();
    let script = generate_script(
        &source,
        Some(&enrichment),
        2025,
        StatementShape::InsertOnly,
        WrapperStyle::ExistenceGuard,
    )
    .unwrap();
    assert_eq!(script.matches("INSERT INTO").count(), 1);
    assert!(script.contains("'Joe''s diner'"));
    assert!(!script.contains("''''"));
}

#[test]
fn generate_with_unmatched_enrichment_row() {
    let source = SOURCE.as_bytes().to_vec();
    let enrichment = b"occupation_code,description\nZ9,nowhere\n".to_vec();
    let script = generate_script(
        &source,
        Some(&enrichment),
        2025,
        StatementShape::InsertOnly,
        WrapperStyle::ExistenceGuard,
    )
    .unwrap();
    assert_eq!(script.matches("INSERT INTO").count(), 1);
    assert!(script.contains("'Cook', '',"));
    assert!(!script.contains("nowhere"));
}

#[test]
fn generate_deduplicates_only_with_enrichment() {
    let source = b"occupation_code|title|rate\nA1|Cook|12.50\nA1|Chef|20.00\n".to_vec();
    let plain = generate_script(
        &source,
        None,
        2025,
        StatementShape::InsertOnly,
        WrapperStyle::ExistenceGuard,
    )
    .unwrap();
    assert_eq!(plain.matches("INSERT INTO").count(), 2);
    let enrichment = b"occupation_code,description\n".to_vec();
    let keyed = generate_script(
        &source,
        Some(&enrichment),
        2025,
        StatementShape::InsertOnly,
        WrapperStyle::ExistenceGuard,
    )
    .unwrap();
    assert_eq!(keyed.matches("INSERT INTO").count(), 1);
    assert!(keyed.contains("'Chef'"));
    assert!(!keyed.contains("'Cook'"));
}

#[test]
fn generate_rejects_ragged_table() {
    let source = b"occupation_code|title|rate\nA1|Cook\n".to_vec();
    let r = generate_script(
        &source,
        None,
        2025,
        StatementShape::InsertOnly,
        WrapperStyle::ExistenceGuard,
    );
    assert_eq!(r, Err(TableError::MalformedTable));
}

#[test]
fn generate_rejects_missing_header() {
    let source = b"code|title|rate\nA1|Cook|12.50\n".to_vec();
    let r = generate_script(
        &source,
        None,
        2025,
        StatementShape::InsertOnly,
        WrapperStyle::ExistenceGuard,
    );
    assert_eq!(r, Err(TableError::MissingHeader));
}

#[test]
fn generate_rejects_bad_rate() {
    let source = b"occupation_code|title|rate\nA1|Cook|12.50\nB2|Baker|cheap\n".to_vec();
    let r = generate_script(
        &source,
        None,
        2025,
        StatementShape::InsertOnly,
        WrapperStyle::ExistenceGuard,
    );
    assert_eq!(r, Err(TableError::BadRate { row: 1 }));
}

#[test]
fn generate_rejects_malformed_enrichment() {
    let source = SOURCE.as_bytes().to_vec();
    let enrichment = b"occupation_code,description\nA1\n".to_vec();
    let r = generate_script(
        &source,
        Some(&enrichment),
        2025,
        StatementShape::InsertOnly,
        WrapperStyle::ExistenceGuard,
    );
    assert_eq!(r, Err(TableError::MalformedTable));
}

#[test]
fn output_file_name_embeds_year() {
    assert_eq!(output_file_name(2025), "V1.1.114__Insert_2025_SCA_Rates.sql");
    assert_eq!(output_file_name(2026), "V1.1.114__Insert_2026_SCA_Rates.sql");
}

#[test]
fn year_policy_applies() {
    assert_eq!(apply_year_policy(2025, YearPolicy::CurrentYear), 2025);
    assert_eq!(apply_year_policy(2025, YearPolicy::NextYear), 2026);
}
