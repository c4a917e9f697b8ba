use spaarapp::import::parse_rabobank_csv;
use spaarapp::models::TransactionType;

const HEADER: &str =
    "Datum;Naam/Omschrijving;Rekening;Tegenrekening;Code;Af/Bij;Bedrag;MutatieSoort;Mededelingen";

#[test]
fn one_row_imports_end_to_end() {
    let content = format!("{}\n12-11-2024;Albert Heijn;NL01;NL02;GT;Af;12,34;;boodschappen\n", HEADER);
    let r = parse_rabobank_csv(content.as_bytes());
    assert_eq!(r.total_rows, 1);
    assert_eq!(r.imported_rows, 1);
    assert_eq!(r.transactions.len(), 1);
    assert_eq!(r.errors.len(), 0);
    assert_eq!(r.warnings.len(), 0);
    let t = &r.transactions[0];
    assert_eq!(t.transaction_type, TransactionType::Debit);
    assert_eq!(t.amount_cents, 1234);
    assert_eq!(t.category_id, Some(b"supermarkt".to_vec()));
    assert_eq!(t.description, b"Albert Heijn - boodschappen".to_vec());
    assert_eq!(t.date.year, 2024);
    assert_eq!(t.date.month, 11);
    assert_eq!(t.date.day, 12);
    assert_eq!(t.account_number, Some(b"NL01".to_vec()));
    assert_eq!(t.account_holder, Some(b"NL02".to_vec()));
    // a fresh hyphenated identifier is 36 bytes
    assert_eq!(t.id.len(), 36);
}

#[test]
fn fresh_identifiers_differ_between_rows() {
    let content = format!(
        "{}\n12-11-2024;A;NL01;NL02;GT;Af;1,00;;\n13-11-2024;B;NL01;NL02;GT;Af;2,00;;\n",
        HEADER
    );
    let r = parse_rabobank_csv(content.as_bytes());
    assert_eq!(r.transactions.len(), 2);
    assert_ne!(r.transactions[0].id, r.transactions[1].id);
}

#[test]
fn duplicates_are_flagged_but_kept() {
    let content = format!(
        "{}\n12-11-2024;Albert Heijn;NL01;NL02;GT;Af;12,34;;x\n12-11-2024;Albert Heijn;NL01;NL02;GT;Af;12,34;;x\n13-11-2024;Jumbo;NL01;NL02;GT;Af;5,00;;\n",
        HEADER
    );
    let r = parse_rabobank_csv(content.as_bytes());
    // the first occurrence is never flagged; the repeat is; all rows stay
    assert_eq!(r.total_rows, 3);
    assert_eq!(r.imported_rows, 3);
    assert_eq!(r.transactions.len(), 3);
    assert_eq!(r.warnings.len(), 1);
    assert_eq!(r.errors.len(), 0);
}

#[test]
fn bad_rows_are_reported_and_skipped() {
    let content = format!(
        "{}\n;Leeg;NL01;NL02;GT;Af;1,00;;\nxx-yy-zz;Kapot;NL01;NL02;GT;Af;1,00;;\n12-11-2024;Goed;NL01;NL02;GT;Af;0;;\n12-11-2024;Goed;NL01;NL02;GT;Af;2,00;;\nteweinigvelden\n",
        HEADER
    );
    let r = parse_rabobank_csv(content.as_bytes());
    assert_eq!(r.total_rows, 5);
    assert_eq!(r.imported_rows, 1);
    assert_eq!(r.transactions.len(), 1);
    assert_eq!(r.errors.len(), 4);
    assert_eq!(r.transactions[0].description, b"Goed".to_vec());
    let first = String::from_utf8(r.errors[0].clone()).unwrap();
    assert!(first.starts_with("Fout op regel 2:"));
    assert!(first.contains("Datum is leeg"));
}

#[test]
fn empty_batch_draws_one_warning() {
    let r = parse_rabobank_csv(format!("{}\n", HEADER).as_bytes());
    assert_eq!(r.total_rows, 0);
    assert_eq!(r.imported_rows, 0);
    assert_eq!(r.warnings.len(), 1);
    let note = String::from_utf8(r.warnings[0].clone()).unwrap();
    assert!(note.contains("Geen geldige transacties"));
    let r2 = parse_rabobank_csv(b"");
    assert_eq!(r2.total_rows, 0);
    assert_eq!(r2.warnings.len(), 1);
}

#[test]
fn direction_marker_wins_over_sign() {
    let content = format!(
        "{}\n12-11-2024;A;NL01;NL02;GT;Bij;12,34;;\n12-11-2024;B;NL01;NL02;GT;;-1,00;;\n12-11-2024;C;NL01;NL02;GT;;1,00;;\n",
        HEADER
    );
    let r = parse_rabobank_csv(content.as_bytes());
    assert_eq!(r.transactions[0].transaction_type, TransactionType::Credit);
    assert_eq!(r.transactions[1].transaction_type, TransactionType::Debit);
    assert_eq!(r.transactions[2].transaction_type, TransactionType::Credit);
    // magnitudes are stored absolute
    assert_eq!(r.transactions[1].amount_cents, 100);
}

#[test]
fn quoted_fields_parse_like_plain_ones() {
    let content = format!(
        "{}\n\"12-11-2024\";\"Cafe \"\"Zon\"\"\";\"NL01\";\"NL02\";\"GT\";\"Af\";\"12,34\";\"\";\"\"\n",
        HEADER
    );
    let r = parse_rabobank_csv(content.as_bytes());
    assert_eq!(r.imported_rows, 1);
    assert_eq!(r.transactions[0].description, b"Cafe \"Zon\"".to_vec());
    assert_eq!(r.transactions[0].amount_cents, 1234);
}

#[test]
fn recurring_markers_set_flag_and_frequency() {
    let content = format!(
        "{}\n12-11-2024;Verzekering maandelijks;NL01;NL02;GT;Af;50,00;Incasso;\n",
        HEADER
    );
    let r = parse_rabobank_csv(content.as_bytes());
    let t = &r.transactions[0];
    assert!(t.is_recurring);
    assert_eq!(t.recurring_frequency, Some(spaarapp::models::Frequency::Monthly));
    assert!(t.tags.contains(&b"automatische incasso".to_vec()));
}

#[test]
fn crlf_and_blank_lines_are_tolerated() {
    let content = format!(
        "{}\r\n12-11-2024;A;NL01;NL02;GT;Af;1,00;;\r\n\r\n13-11-2024;B;NL01;NL02;GT;Af;2,00;;\r\n",
        HEADER
    );
    let r = parse_rabobank_csv(content.as_bytes());
    assert_eq!(r.total_rows, 2);
    assert_eq!(r.imported_rows, 2);
}
