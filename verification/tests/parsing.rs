use spaarapp::amount::{parse_amount, parse_simple_amount};
use spaarapp::classify::{
    auto_categorize, detect_recurring_frequency, extract_tags, is_recurring_transaction,
};
use spaarapp::date::{Date, parse_date};
use spaarapp::import::validate_csv_structure;
use spaarapp::importer::CsvImporter;
use spaarapp::models::{CsvImportConfig, Frequency, TransactionType};
use spaarapp::utils::validate_iban;

#[test]
fn test_date_parsing() {
    let config = CsvImportConfig::default();
    let importer = CsvImporter::new(config);

    assert!(importer.parse_date(b"20241112").is_ok());
    assert!(importer.parse_date(b"12-11-2024").is_ok());
    assert!(importer.parse_date(b"12/11/2024").is_ok());
    assert!(importer.parse_date(b"2024-11-12").is_ok());
    assert!(importer.parse_date(b"invalid").is_err());
}

#[test]
fn same_date_in_all_five_patterns() {
    let expected = Date { year: 2024, month: 11, day: 12 };
    assert_eq!(parse_date(b"12-11-2024"), Some(expected));
    assert_eq!(parse_date(b"12/11/2024"), Some(expected));
    assert_eq!(parse_date(b"2024-11-12"), Some(expected));
    assert_eq!(parse_date(b"12-11-24"), Some(expected));
    assert_eq!(parse_date(b"20241112"), Some(expected));
}

#[test]
fn date_rejects_bad_calendar_days() {
    assert_eq!(parse_date(b"31-02-2024"), None);
    assert_eq!(parse_date(b"29-02-2023"), None);
    assert_eq!(parse_date(b"29-02-2024"), Some(Date { year: 2024, month: 2, day: 29 }));
    assert_eq!(parse_date(b"00-01-2024"), None);
    assert_eq!(parse_date(b"13-13-2024"), None);
    assert_eq!(parse_date(b""), None);
}

#[test]
fn two_digit_years_follow_century_rule() {
    assert_eq!(parse_date(b"01-01-68"), Some(Date { year: 2068, month: 1, day: 1 }));
    assert_eq!(parse_date(b"01-01-69"), Some(Date { year: 1969, month: 1, day: 1 }));
}

#[test]
fn weekday_of_known_dates() {
    // 2024-11-12 was a Tuesday, 1970-01-01 a Thursday
    let d = Date { year: 2024, month: 11, day: 12 };
    assert_eq!(d.weekday_from_monday(), 1);
    let epoch = Date { year: 1970, month: 1, day: 1 };
    assert_eq!(epoch.weekday_from_monday(), 3);
    assert_eq!(epoch.day_number(), 719162);
}

#[test]
fn dutch_amounts_normalize_to_cents() {
    assert_eq!(parse_amount(b"12,34"), Some((false, 1234)));
    assert_eq!(parse_amount(b"1.234,56"), Some((false, 123456)));
    assert_eq!(parse_amount("\u{20ac}1.234,56".as_bytes()), Some((false, 123456)));
    assert_eq!(parse_amount(b"-12,34"), Some((true, 1234)));
    assert_eq!(parse_amount(b"+12,5"), Some((false, 1250)));
    assert_eq!(parse_amount(b" 12,34 "), Some((false, 1234)));
}

#[test]
fn ambiguous_or_malformed_amounts_are_rejected() {
    assert_eq!(parse_amount(b""), None);
    assert_eq!(parse_amount(b"0"), None);
    assert_eq!(parse_amount("\u{20ac}0".as_bytes()), None);
    assert_eq!(parse_amount(b"0,00"), Some((false, 0)));
    assert_eq!(parse_amount(b"abc"), None);
    assert_eq!(parse_amount(b"12,345"), None);
    assert_eq!(parse_amount(b"12,"), None);
}

#[test]
fn simple_amounts_accept_dot_and_comma_decimals() {
    assert_eq!(parse_simple_amount(b"12.34"), Some((false, 1234)));
    assert_eq!(parse_simple_amount(b"12,34"), Some((false, 1234)));
    assert_eq!(parse_simple_amount(b"-3.50"), Some((true, 350)));
    assert_eq!(parse_simple_amount(b"1.234,56"), None);
    assert_eq!(parse_simple_amount(b""), None);
}

#[test]
fn iban_length_check() {
    assert!(validate_iban(b"NL91ABNA0417164300"));
    assert!(validate_iban(b"NL91 ABNA 0417 1643 00"));
    assert!(!validate_iban(b"NL91"));
    assert!(!validate_iban(b"NL91ABNA0417164300NL91ABNA0417164300"));
}

#[test]
fn csv_structure_requires_all_rabobank_headers() {
    let good = b"Datum;Naam/Omschrijving;Rekening;Tegenrekening;Code;Af/Bij;Bedrag;MutatieSoort;Mededelingen\n";
    assert!(validate_csv_structure(good));
    let trimmed = b" Datum ;Naam/Omschrijving;Rekening;Tegenrekening;Code;Af/Bij;Bedrag;MutatieSoort;Mededelingen\n";
    assert!(validate_csv_structure(trimmed));
    let missing = b"Datum;Naam/Omschrijving;Rekening;Tegenrekening;Code;Af/Bij;Bedrag;MutatieSoort\n";
    assert!(!validate_csv_structure(missing));
    assert!(!validate_csv_structure(b""));
}

#[test]
fn categorization_is_deterministic_and_first_match() {
    let first = auto_categorize(b"Albert Heijn Amsterdam");
    let second = auto_categorize(b"Albert Heijn Amsterdam");
    assert_eq!(first, second);
    assert_eq!(first, Some(b"supermarkt".to_vec()));
    // "restaurant" stands before "transport" in the table, and both match
    assert_eq!(auto_categorize(b"Restaurant Shell"), Some(b"restaurant".to_vec()));
    assert_eq!(auto_categorize(b"NETFLIX"), Some(b"entertainment".to_vec()));
    // "abonnement" carries "nn", a keyword of the earlier insurance entry
    assert_eq!(auto_categorize(b"NETFLIX ABONNEMENT"), Some(b"verzekering".to_vec()));
    assert_eq!(auto_categorize(b"zzzz"), None);
}

#[test]
fn tags_follow_keyword_families() {
    let tags = extract_tags(b"SEPA Incasso", b"", b"via iDEAL webshop");
    assert_eq!(
        tags,
        vec![b"automatische incasso".to_vec(), b"iDEAL".to_vec(), b"online".to_vec()]
    );
    let none: Vec<Vec<u8>> = Vec::new();
    assert_eq!(extract_tags(b"zzzz", b"", b""), none);
}

#[test]
fn recurring_flag_and_frequency_are_separate() {
    assert!(is_recurring_transaction(b"Verzekering XYZ", b""));
    assert!(is_recurring_transaction(b"", b"Incasso"));
    assert!(!is_recurring_transaction(b"Bakkerij", b"GT"));
    // flagged recurring, yet no frequency phrase: the asymmetry is intended
    assert_eq!(detect_recurring_frequency(b"Verzekering XYZ"), None);
    assert_eq!(detect_recurring_frequency(b"huur maandelijks"), Some(Frequency::Monthly));
    assert_eq!(detect_recurring_frequency(b"per week"), Some(Frequency::Weekly));
    assert_eq!(detect_recurring_frequency(b"per kwartaal"), Some(Frequency::Quarterly));
    assert_eq!(detect_recurring_frequency(b"jaarlijks"), Some(Frequency::Yearly));
}

#[test]
fn importer_maps_columns_and_stops_at_first_bad_row() {
    let importer = CsvImporter::new(CsvImportConfig::default());
    let content = b"datum,omschrijving,bedrag\n20241112,Coffee,-3.50\n20241113,Salary,2500.00\n";
    let txs = importer.parse_csv_content(content).expect("both rows parse");
    assert_eq!(txs.len(), 2);
    assert_eq!(txs[0].description, b"Coffee".to_vec());
    assert_eq!(txs[0].amount_cents, 350);
    assert_eq!(txs[0].transaction_type, TransactionType::Debit);
    assert_eq!(txs[0].date, Date { year: 2024, month: 11, day: 12 });
    assert_eq!(txs[0].notes, Some(b"Imported from CSV - Record 1".to_vec()));
    assert_eq!(txs[0].tags, vec![b"imported".to_vec()]);
    assert_eq!(txs[1].transaction_type, TransactionType::Credit);
    assert_eq!(txs[1].amount_cents, 250000);

    let bad = b"datum,omschrijving,bedrag\n20241112,Coffee,notanumber\n";
    let err = importer.parse_csv_content(bad).unwrap_err();
    let msg = String::from_utf8(err).unwrap();
    assert!(msg.starts_with("Record 1:"));
}

#[test]
fn amount_cap_is_enforced() {
    assert_eq!(parse_amount(b"100.000.000,00"), Some((false, 10_000_000_000)));
    assert_eq!(parse_amount(b"100.000.000,01"), None);
}

#[test]
fn importer_without_header_row_reads_all_records() {
    let mut config = CsvImportConfig::default();
    config.has_header_row = false;
    let importer = CsvImporter::new(config);
    let txs = importer.parse_csv_content(b"20241112,Coffee,-3.50").unwrap();
    assert_eq!(txs.len(), 1);
    assert_eq!(txs[0].amount_cents, 350);
}
