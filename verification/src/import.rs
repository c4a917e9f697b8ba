//! Rabobank statement import: structural validation, row normalization,
//! within-batch duplicate detection, and the batch result.
//!
//! A batch is semicolon-delimited text with a header row.  Rows that fail
//! to normalize are reported as error messages with their 1-based line
//! number and skipped; the batch goes on past them.  A row whose date,
//! description and amount all equal those of an earlier accepted row in
//! the same batch is still imported but draws a duplicate warning.

use vstd::prelude::*;
use crate::amount::{clean_amount, clean_amount_spec, parse_amount, parse_amount_spec};
use crate::classify::{
    auto_categorize, categorize_spec, default_category_table_view, default_tag_rules_view,
    detect_recurring_frequency, extract_tags, frequency_spec, is_recurring_transaction, joined2,
    joined3, recurring_spec, tags_spec,
};
use crate::csvread::{csv_records_spec, split_csv};
use crate::date::{Date, parse_date, parse_date_spec};
use crate::models::{CsvImportResult, Transaction, TransactionType, opt_bytes_view};
use crate::resolve::{field_by_synonyms, get_field, header_present, header_present_exec};
use crate::text::{ascii_bytes, bytes_eq, dec_spec, lit_bytes, lower_bytes, push_bytes, to_lower,
    usize_to_dec};

verus! {

// ---------------------------------------------------------------------------
// Field synonyms
// ---------------------------------------------------------------------------

pub open spec fn datum_syns() -> Seq<Seq<u8>> {
    seq![ascii_bytes("Datum"@), ascii_bytes("datum"@)]
}

pub open spec fn naam_syns() -> Seq<Seq<u8>> {
    seq![ascii_bytes("Naam/Omschrijving"@), ascii_bytes("Naam"@), ascii_bytes("Omschrijving"@)]
}

pub open spec fn rekening_syns() -> Seq<Seq<u8>> {
    seq![ascii_bytes("Rekening"@), ascii_bytes("rekening"@)]
}

pub open spec fn tegenrekening_syns() -> Seq<Seq<u8>> {
    seq![ascii_bytes("Tegenrekening"@), ascii_bytes("tegenrekening"@)]
}

pub open spec fn afbij_syns() -> Seq<Seq<u8>> {
    seq![ascii_bytes("Af/Bij"@), ascii_bytes("Af"@), ascii_bytes("Bij"@)]
}

pub open spec fn bedrag_syns() -> Seq<Seq<u8>> {
    seq![ascii_bytes("Bedrag"@), ascii_bytes("bedrag"@)]
}

pub open spec fn mutatiesoort_syns() -> Seq<Seq<u8>> {
    seq![ascii_bytes("MutatieSoort"@), ascii_bytes("Mutatie"@)]
}

pub open spec fn mededelingen_syns() -> Seq<Seq<u8>> {
    seq![ascii_bytes("Mededelingen"@), ascii_bytes("Mededeling"@)]
}

pub open spec fn rab_datum(hs: Seq<Seq<u8>>, rs: Seq<Seq<u8>>) -> Seq<u8> {
    field_by_synonyms(hs, rs, datum_syns())
}

pub open spec fn rab_naam(hs: Seq<Seq<u8>>, rs: Seq<Seq<u8>>) -> Seq<u8> {
    field_by_synonyms(hs, rs, naam_syns())
}

pub open spec fn rab_rekening(hs: Seq<Seq<u8>>, rs: Seq<Seq<u8>>) -> Seq<u8> {
    field_by_synonyms(hs, rs, rekening_syns())
}

pub open spec fn rab_tegenrekening(hs: Seq<Seq<u8>>, rs: Seq<Seq<u8>>) -> Seq<u8> {
    field_by_synonyms(hs, rs, tegenrekening_syns())
}

pub open spec fn rab_afbij(hs: Seq<Seq<u8>>, rs: Seq<Seq<u8>>) -> Seq<u8> {
    field_by_synonyms(hs, rs, afbij_syns())
}

pub open spec fn rab_bedrag(hs: Seq<Seq<u8>>, rs: Seq<Seq<u8>>) -> Seq<u8> {
    field_by_synonyms(hs, rs, bedrag_syns())
}

pub open spec fn rab_mutatiesoort(hs: Seq<Seq<u8>>, rs: Seq<Seq<u8>>) -> Seq<u8> {
    field_by_synonyms(hs, rs, mutatiesoort_syns())
}

pub open spec fn rab_mededelingen(hs: Seq<Seq<u8>>, rs: Seq<Seq<u8>>) -> Seq<u8> {
    field_by_synonyms(hs, rs, mededelingen_syns())
}

fn syns2(a: &str, b: &str) -> (r: Vec<Vec<u8>>)
    requires
        vstd::string::is_ascii(a),
        vstd::string::is_ascii(b),
    ensures
        r.deep_view() == seq![ascii_bytes(a@), ascii_bytes(b@)],
{
    let mut v: Vec<Vec<u8>> = Vec::new();
    v.push(lit_bytes(a));
    v.push(lit_bytes(b));
    proof {
        assert(v.deep_view() =~~= seq![ascii_bytes(a@), ascii_bytes(b@)]);
    }
    v
}

fn syns3(a: &str, b: &str, c: &str) -> (r: Vec<Vec<u8>>)
    requires
        vstd::string::is_ascii(a),
        vstd::string::is_ascii(b),
        vstd::string::is_ascii(c),
    ensures
        r.deep_view() == seq![ascii_bytes(a@), ascii_bytes(b@), ascii_bytes(c@)],
{
    let mut v: Vec<Vec<u8>> = Vec::new();
    v.push(lit_bytes(a));
    v.push(lit_bytes(b));
    v.push(lit_bytes(c));
    proof {
        assert(v.deep_view() =~~= seq![ascii_bytes(a@), ascii_bytes(b@), ascii_bytes(c@)]);
    }
    v
}

// ---------------------------------------------------------------------------
// Description assembly
// ---------------------------------------------------------------------------

/// Parts joined by `sep`.
pub open spec fn join_parts(parts: Seq<Seq<u8>>, sep: Seq<u8>) -> Seq<u8>
    decreases parts.len(),
{
    if parts.len() == 0 {
        seq![]
    } else if parts.len() == 1 {
        parts[0]
    } else {
        parts[0] + sep + join_parts(parts.drop_first(), sep)
    }
}

proof fn lemma_join_parts_push(parts: Seq<Seq<u8>>, sep: Seq<u8>, x: Seq<u8>)
    requires
        parts.len() >= 1,
    ensures
        join_parts(parts.push(x), sep) == join_parts(parts, sep) + sep + x,
    decreases parts.len(),
{
    if parts.len() == 1 {
        assert(parts.push(x).drop_first() =~= seq![x]);
        assert(join_parts(seq![x], sep) == x);
        assert(parts.push(x)[0] == parts[0]);
    } else {
        assert(parts.push(x).drop_first() =~= parts.drop_first().push(x));
        lemma_join_parts_push(parts.drop_first(), sep, x);
        assert(parts.push(x)[0] == parts[0]);
        assert(parts[0] + sep + (join_parts(parts.drop_first(), sep) + sep + x) =~= (parts[0] + sep
            + join_parts(parts.drop_first(), sep)) + sep + x);
    }
}

fn join_with(parts: &Vec<Vec<u8>>, sep: &[u8]) -> (r: Vec<u8>)
    ensures
        r@ == join_parts(parts.deep_view(), sep@),
{
    let ghost pv = parts.deep_view();
    let n: usize = parts.len();
    if n == 0 {
        return Vec::new();
    }
    let mut r = vstd::slice::slice_to_vec(parts[0].as_slice());
    proof {
        assert(pv.take(1) =~= seq![pv[0]]);
        assert(pv[0] == parts@[0]@);
    }
    let mut i: usize = 1;
    while i < n
        invariant
            1 <= i <= n,
            n == parts@.len(),
            pv == parts.deep_view(),
            r@ == join_parts(pv.take(i as int), sep@),
        decreases n - i,
    {
        push_bytes(&mut r, sep);
        push_bytes(&mut r, parts[i].as_slice());
        proof {
            assert(pv.take(i + 1) =~= pv.take(i as int).push(pv[i as int]));
            lemma_join_parts_push(pv.take(i as int), sep@, pv[i as int]);
            assert(pv[i as int] == parts@[i as int]@);
        }
        i = i + 1;
    }
    proof {
        assert(pv.take(n as int) =~= pv);
    }
    r
}

/// The non-empty description parts: counterparty text, mutation kind
/// (unless it is the no-op code `GT`), and memo, in that order.
pub open spec fn rab_description_parts(naam: Seq<u8>, muta: Seq<u8>, made: Seq<u8>) -> Seq<
    Seq<u8>,
> {
    (if naam.len() > 0 {
        seq![naam]
    } else {
        seq![]
    }) + (if muta.len() > 0 && muta != ascii_bytes("GT"@) {
        seq![muta]
    } else {
        seq![]
    }) + (if made.len() > 0 {
        seq![made]
    } else {
        seq![]
    })
}

/// The assembled description: the parts joined by ` - `, or a fixed
/// placeholder when every part is empty.
pub open spec fn rab_description(naam: Seq<u8>, muta: Seq<u8>, made: Seq<u8>) -> Seq<u8> {
    let parts = rab_description_parts(naam, muta, made);
    if parts.len() == 0 {
        ascii_bytes("Onbekende transactie"@)
    } else {
        join_parts(parts, ascii_bytes(" - "@))
    }
}

// ---------------------------------------------------------------------------
// Row normalization
// ---------------------------------------------------------------------------

/// The inferred direction: an explicit `Bij`/`Af` marker wins
/// (case-insensitively); otherwise the sign of the amount decides, a
/// negative amount meaning money out.
pub open spec fn rab_direction(afbij: Seq<u8>, negative: bool) -> TransactionType {
    let ab = to_lower(afbij);
    if ab == ascii_bytes("bij"@) {
        TransactionType::Credit
    } else if ab == ascii_bytes("af"@) {
        TransactionType::Debit
    } else if negative {
        TransactionType::Debit
    } else {
        TransactionType::Credit
    }
}

/// A row normalizes when its date field is present and parses, and its
/// amount field parses.
pub open spec fn rab_ok(hs: Seq<Seq<u8>>, rs: Seq<Seq<u8>>) -> bool {
    &&& rab_datum(hs, rs).len() > 0
    &&& parse_date_spec(rab_datum(hs, rs)) is Some
    &&& parse_amount_spec(rab_bedrag(hs, rs)) is Some
}

/// Every normalized field of `t`, except the category, against the raw row.
pub open spec fn tx_fields_match(t: Transaction, hs: Seq<Seq<u8>>, rs: Seq<Seq<u8>>) -> bool {
    let naam = rab_naam(hs, rs);
    let muta = rab_mutatiesoort(hs, rs);
    let made = rab_mededelingen(hs, rs);
    let amt = parse_amount_spec(rab_bedrag(hs, rs)).unwrap();
    &&& t.id@.len() == 36
    &&& t.description@ == rab_description(naam, muta, made)
    &&& t.amount_cents == amt.1
    &&& t.date == parse_date_spec(rab_datum(hs, rs)).unwrap()
    &&& t.transaction_type == rab_direction(rab_afbij(hs, rs), amt.0)
    &&& opt_bytes_view(t.account_number) == Some(rab_rekening(hs, rs))
    &&& opt_bytes_view(t.account_holder) == Some(rab_tegenrekening(hs, rs))
    &&& t.balance_after_cents is None
    &&& opt_bytes_view(t.notes) == (if made.len() > 0 {
        Some(made)
    } else {
        None::<Seq<u8>>
    })
    &&& t.tags.deep_view() == tags_spec(default_tag_rules_view(), to_lower(joined3(naam, muta, made)))
    &&& t.is_recurring == recurring_spec(to_lower(joined2(naam, muta)))
    &&& t.recurring_frequency == frequency_spec(to_lower(naam))
    &&& t.wf()
}

/// The error message of a row that does not normalize, with its 1-based
/// source line number.
pub open spec fn rab_row_error(hs: Seq<Seq<u8>>, rs: Seq<Seq<u8>>, line: int) -> Seq<u8> {
    let datum = rab_datum(hs, rs);
    let bedrag = rab_bedrag(hs, rs);
    if datum.len() == 0 {
        ascii_bytes("Datum is leeg op regel "@) + dec_spec(line)
    } else if parse_date_spec(datum) is None {
        ascii_bytes("Ongeldige datum formaat: "@) + datum + ascii_bytes(" op regel "@) + dec_spec(
            line,
        )
    } else {
        let c = clean_amount_spec(bedrag);
        if c.len() == 0 || c == seq![48u8] {
            ascii_bytes("Bedrag is ongeldig: "@) + bedrag + ascii_bytes(" op regel "@) + dec_spec(
                line,
            )
        } else {
            ascii_bytes("Kan bedrag niet parseren: "@) + bedrag + ascii_bytes(" op regel "@)
                + dec_spec(line)
        }
    }
}

fn tail_msg(prefix: Vec<u8>, field: &[u8], line: usize) -> (r: Vec<u8>)
    ensures
        r@ == prefix@ + field@ + ascii_bytes(" op regel "@) + dec_spec(line as int),
{
    proof {
        reveal_strlit(" op regel ");
    }
    let mut m = prefix;
    push_bytes(&mut m, field);
    let mid = lit_bytes(" op regel ");
    push_bytes(&mut m, mid.as_slice());
    let d = usize_to_dec(line);
    push_bytes(&mut m, d.as_slice());
    m
}

/// Normalizes one raw row against the header row.  `line` is the 1-based
/// source line for the error message.
pub fn parse_rabobank_record(headers: &Vec<Vec<u8>>, record: &Vec<Vec<u8>>, line: usize) -> (r:
    Result<Transaction, Vec<u8>>)
    ensures
        match r {
            Ok(t) => rab_ok(headers.deep_view(), record.deep_view()) && tx_fields_match(
                t,
                headers.deep_view(),
                record.deep_view(),
            ) && t.category_id is None,
            Err(m) => !rab_ok(headers.deep_view(), record.deep_view()) && m@ == rab_row_error(
                headers.deep_view(),
                record.deep_view(),
                line as int,
            ),
        },
{
    proof {
        reveal_strlit("Datum");
        reveal_strlit("datum");
        reveal_strlit("Naam/Omschrijving");
        reveal_strlit("Naam");
        reveal_strlit("Omschrijving");
        reveal_strlit("Rekening");
        reveal_strlit("rekening");
        reveal_strlit("Tegenrekening");
        reveal_strlit("tegenrekening");
        reveal_strlit("Af/Bij");
        reveal_strlit("Af");
        reveal_strlit("Bij");
        reveal_strlit("Bedrag");
        reveal_strlit("bedrag");
        reveal_strlit("MutatieSoort");
        reveal_strlit("Mutatie");
        reveal_strlit("Mededelingen");
        reveal_strlit("Mededeling");
    }
    let ghost hv = headers.deep_view();
    let ghost rv = record.deep_view();

    let s_datum = syns2("Datum", "datum");
    let datum = get_field(headers, record, &s_datum);
    if datum.len() == 0 {
        proof {
            reveal_strlit("Datum is leeg op regel ");
        }
        let mut m = lit_bytes("Datum is leeg op regel ");
        let d = usize_to_dec(line);
        push_bytes(&mut m, d.as_slice());
        return Err(m);
    }
    let date = match parse_date(datum.as_slice()) {
        Some(d) => d,
        None => {
            proof {
                reveal_strlit("Ongeldige datum formaat: ");
            }
            return Err(tail_msg(lit_bytes("Ongeldige datum formaat: "), datum.as_slice(), line));
        },
    };

    let s_bedrag = syns2("Bedrag", "bedrag");
    let bedrag = get_field(headers, record, &s_bedrag);
    let (negative, cents) = match parse_amount(bedrag.as_slice()) {
        Some(p) => p,
        None => {
            let c = clean_amount(bedrag.as_slice());
            if c.len() == 0 || (c.len() == 1 && c[0] == 48) {
                proof {
                    reveal_strlit("Bedrag is ongeldig: ");
                    if c@.len() == 1 && c@[0] == 48 {
                        assert(c@ =~= seq![48u8]);
                    }
                }
                return Err(tail_msg(lit_bytes("Bedrag is ongeldig: "), bedrag.as_slice(), line));
            } else {
                proof {
                    reveal_strlit("Kan bedrag niet parseren: ");
                    if c@ == seq![48u8] {
                        assert(c@.len() == 1 && c@[0] == 48);
                    }
                }
                return Err(
                    tail_msg(lit_bytes("Kan bedrag niet parseren: "), bedrag.as_slice(), line),
                );
            }
        },
    };

    let s_naam = syns3("Naam/Omschrijving", "Naam", "Omschrijving");
    let naam = get_field(headers, record, &s_naam);
    let s_rekening = syns2("Rekening", "rekening");
    let rekening = get_field(headers, record, &s_rekening);
    let s_tegen = syns2("Tegenrekening", "tegenrekening");
    let tegenrekening = get_field(headers, record, &s_tegen);
    let s_afbij = syns3("Af/Bij", "Af", "Bij");
    let afbij = get_field(headers, record, &s_afbij);
    let s_muta = syns2("MutatieSoort", "Mutatie");
    let mutatiesoort = get_field(headers, record, &s_muta);
    let s_made = syns2("Mededelingen", "Mededeling");
    let mededelingen = get_field(headers, record, &s_made);

    // direction: explicit marker first, then the amount's sign
    proof {
        reveal_strlit("bij");
        reveal_strlit("af");
    }
    let ab = lower_bytes(afbij.as_slice());
    let k_bij = lit_bytes("bij");
    let k_af = lit_bytes("af");
    let transaction_type = if bytes_eq(ab.as_slice(), k_bij.as_slice()) {
        TransactionType::Credit
    } else if bytes_eq(ab.as_slice(), k_af.as_slice()) {
        TransactionType::Debit
    } else if negative {
        TransactionType::Debit
    } else {
        TransactionType::Credit
    };

    // description: name, mutation kind (except the no-op code), memo
    proof {
        reveal_strlit("GT");
        reveal_strlit(" - ");
        reveal_strlit("Onbekende transactie");
    }
    let mut parts: Vec<Vec<u8>> = Vec::new();
    if naam.len() > 0 {
        parts.push(vstd::slice::slice_to_vec(naam.as_slice()));
    }
    let k_gt = lit_bytes("GT");
    if mutatiesoort.len() > 0 && !bytes_eq(mutatiesoort.as_slice(), k_gt.as_slice()) {
        parts.push(vstd::slice::slice_to_vec(mutatiesoort.as_slice()));
    }
    if mededelingen.len() > 0 {
        parts.push(vstd::slice::slice_to_vec(mededelingen.as_slice()));
    }
    proof {
        assert(parts.deep_view() =~~= rab_description_parts(naam@, mutatiesoort@, mededelingen@));
    }
    let description = if parts.len() == 0 {
        lit_bytes("Onbekende transactie")
    } else {
        let sep = lit_bytes(" - ");
        join_with(&parts, sep.as_slice())
    };

    let tags = extract_tags(naam.as_slice(), mutatiesoort.as_slice(), mededelingen.as_slice());
    let is_recurring = is_recurring_transaction(naam.as_slice(), mutatiesoort.as_slice());
    let recurring_frequency = detect_recurring_frequency(naam.as_slice());
    let notes = if mededelingen.len() > 0 {
        Some(vstd::slice::slice_to_vec(mededelingen.as_slice()))
    } else {
        None
    };

    Ok(
        Transaction {
            id: crate::outside::fresh_id(),
            description,
            amount_cents: cents,
            date,
            transaction_type,
            category_id: None,
            account_number: Some(rekening),
            account_holder: Some(tegenrekening),
            balance_after_cents: None,
            notes,
            tags,
            is_recurring,
            recurring_frequency,
        },
    )
}

// ---------------------------------------------------------------------------
// Batch parsing
// ---------------------------------------------------------------------------

/// The records of a Rabobank export: semicolon-delimited.
pub open spec fn rab_records(content: Seq<u8>) -> Seq<Seq<Seq<u8>>> {
    csv_records_spec(content, 59)
}

/// The header row, or empty when the text has no records at all.
pub open spec fn rab_headers(content: Seq<u8>) -> Seq<Seq<u8>> {
    let recs = rab_records(content);
    if recs.len() > 0 {
        recs[0]
    } else {
        seq![]
    }
}

/// The data rows: every record after the header.
pub open spec fn rab_rows(content: Seq<u8>) -> Seq<Seq<Seq<u8>>> {
    let recs = rab_records(content);
    if recs.len() > 0 {
        recs.drop_first()
    } else {
        seq![]
    }
}

/// A row is accepted when its field count matches the header and it
/// normalizes.
pub open spec fn row_accepted(hs: Seq<Seq<u8>>, row: Seq<Seq<u8>>) -> bool {
    row.len() == hs.len() && rab_ok(hs, row)
}

/// The accepted rows, in order.
pub open spec fn accepted_rows(hs: Seq<Seq<u8>>, rows: Seq<Seq<Seq<u8>>>) -> Seq<Seq<Seq<u8>>>
    decreases rows.len(),
{
    if rows.len() == 0 {
        seq![]
    } else {
        let rest = accepted_rows(hs, rows.drop_last());
        if row_accepted(hs, rows.last()) {
            rest.push(rows.last())
        } else {
            rest
        }
    }
}

/// The duplicate key of an accepted row: normalized date, assembled
/// description, and cent magnitude.
pub open spec fn row_key(hs: Seq<Seq<u8>>, row: Seq<Seq<u8>>) -> (Date, Seq<u8>, u64) {
    (
        parse_date_spec(rab_datum(hs, row)).unwrap(),
        rab_description(rab_naam(hs, row), rab_mutatiesoort(hs, row), rab_mededelingen(hs, row)),
        parse_amount_spec(rab_bedrag(hs, row)).unwrap().1,
    )
}

/// Row `k` of the accepted list repeats the key of an earlier accepted
/// row.  The first occurrence of a key is never flagged.
pub open spec fn dup_flag(hs: Seq<Seq<u8>>, acc: Seq<Seq<Seq<u8>>>, k: int) -> bool {
    exists|j: int| 0 <= j < k && row_key(hs, #[trigger] acc[j]) == row_key(hs, acc[k])
}

/// How many of the first `upto` accepted rows are flagged as duplicates.
pub open spec fn dup_count(hs: Seq<Seq<u8>>, acc: Seq<Seq<Seq<u8>>>, upto: int) -> int
    decreases upto,
{
    if upto <= 0 {
        0
    } else {
        dup_count(hs, acc, upto - 1) + (if dup_flag(hs, acc, upto - 1) {
            1int
        } else {
            0int
        })
    }
}

proof fn lemma_dup_flag_push(hs: Seq<Seq<u8>>, acc: Seq<Seq<Seq<u8>>>, x: Seq<Seq<u8>>, k: int)
    requires
        0 <= k < acc.len(),
    ensures
        dup_flag(hs, acc.push(x), k) == dup_flag(hs, acc, k),
{
    if dup_flag(hs, acc, k) {
        let j = choose|j: int| 0 <= j < k && row_key(hs, #[trigger] acc[j]) == row_key(hs, acc[k]);
        assert(acc.push(x)[j] == acc[j]);
        assert(acc.push(x)[k] == acc[k]);
        assert(dup_flag(hs, acc.push(x), k));
    }
    if dup_flag(hs, acc.push(x), k) {
        let j = choose|j: int|
            0 <= j < k && row_key(hs, #[trigger] acc.push(x)[j]) == row_key(hs, acc.push(x)[k]);
        assert(acc.push(x)[j] == acc[j]);
        assert(acc.push(x)[k] == acc[k]);
        assert(dup_flag(hs, acc, k));
    }
}

proof fn lemma_dup_count_push(hs: Seq<Seq<u8>>, acc: Seq<Seq<Seq<u8>>>, x: Seq<Seq<u8>>, upto: int)
    requires
        0 <= upto <= acc.len(),
    ensures
        dup_count(hs, acc.push(x), upto) == dup_count(hs, acc, upto),
    decreases upto,
{
    if upto > 0 {
        lemma_dup_count_push(hs, acc, x, upto - 1);
        lemma_dup_flag_push(hs, acc, x, upto - 1);
    }
}

/// The 0-based indices (among the data rows) of the accepted rows, in
/// order; position `k` of the accepted list came from data row
/// `accepted_indices(..)[k]`.
pub open spec fn accepted_indices(hs: Seq<Seq<u8>>, rows: Seq<Seq<Seq<u8>>>) -> Seq<int>
    decreases rows.len(),
{
    if rows.len() == 0 {
        seq![]
    } else {
        let rest = accepted_indices(hs, rows.drop_last());
        if row_accepted(hs, rows.last()) {
            rest.push(rows.len() - 1)
        } else {
            rest
        }
    }
}

/// The positions (into the accepted list) of the rows flagged as
/// duplicates, among the first `upto`, in order.
pub open spec fn flagged_positions(hs: Seq<Seq<u8>>, acc: Seq<Seq<Seq<u8>>>, upto: int) -> Seq<
    int,
>
    decreases upto,
{
    if upto <= 0 {
        seq![]
    } else {
        let rest = flagged_positions(hs, acc, upto - 1);
        if dup_flag(hs, acc, upto - 1) {
            rest.push(upto - 1)
        } else {
            rest
        }
    }
}

proof fn lemma_flagged_positions_push(
    hs: Seq<Seq<u8>>,
    acc: Seq<Seq<Seq<u8>>>,
    x: Seq<Seq<u8>>,
    upto: int,
)
    requires
        0 <= upto <= acc.len(),
    ensures
        flagged_positions(hs, acc.push(x), upto) == flagged_positions(hs, acc, upto),
    decreases upto,
{
    if upto > 0 {
        lemma_flagged_positions_push(hs, acc, x, upto - 1);
        lemma_dup_flag_push(hs, acc, x, upto - 1);
    }
}

proof fn lemma_flagged_positions_range(hs: Seq<Seq<u8>>, acc: Seq<Seq<Seq<u8>>>, upto: int)
    ensures
        forall|j: int|
            0 <= j < flagged_positions(hs, acc, upto).len() ==> 0 <= #[trigger] flagged_positions(
                hs,
                acc,
                upto,
            )[j] < upto,
        flagged_positions(hs, acc, upto).len() == dup_count(hs, acc, upto),
    decreases upto,
{
    if upto > 0 {
        lemma_flagged_positions_range(hs, acc, upto - 1);
    }
}

/// The duplicate notice for an accepted row, with its 1-based source
/// line.
pub open spec fn dup_warning_message(hs: Seq<Seq<u8>>, row: Seq<Seq<u8>>, line: int) -> Seq<u8> {
    ascii_bytes("Mogelijke duplicaat gevonden op regel "@) + dec_spec(line) + ascii_bytes(": "@)
        + rab_description(rab_naam(hs, row), rab_mutatiesoort(hs, row), rab_mededelingen(hs, row))
}

/// The 0-based indices (among the data rows) of the rows that are not
/// accepted, in order.
pub open spec fn failed_indices(hs: Seq<Seq<u8>>, rows: Seq<Seq<Seq<u8>>>) -> Seq<int>
    decreases rows.len(),
{
    if rows.len() == 0 {
        seq![]
    } else {
        let rest = failed_indices(hs, rows.drop_last());
        if row_accepted(hs, rows.last()) {
            rest
        } else {
            rest.push(rows.len() - 1)
        }
    }
}

/// The reported message of a failed data row on source line `line`
/// (1-based, the header being line 1).
pub open spec fn row_error_message(hs: Seq<Seq<u8>>, row: Seq<Seq<u8>>, line: int) -> Seq<u8> {
    ascii_bytes("Fout op regel "@) + dec_spec(line) + ascii_bytes(": "@) + (if row.len()
        != hs.len() {
        ascii_bytes("Rij heeft een onverwacht aantal velden"@)
    } else {
        rab_row_error(hs, row, line)
    })
}

/// Partial failure is total: every data row is either accepted or
/// reported as failed, so a single bad row never aborts an otherwise
/// valid import.
pub proof fn lemma_rows_partition(hs: Seq<Seq<u8>>, rows: Seq<Seq<Seq<u8>>>)
    ensures
        accepted_rows(hs, rows).len() + failed_indices(hs, rows).len() == rows.len(),
    decreases rows.len(),
{
    if rows.len() > 0 {
        lemma_rows_partition(hs, rows.drop_last());
    }
}

/// Copy of a record's fields.
fn copy_fields(v: &Vec<Vec<u8>>) -> (r: Vec<Vec<u8>>)
    ensures
        r.deep_view() == v.deep_view(),
{
    let n: usize = v.len();
    let mut r: Vec<Vec<u8>> = Vec::new();
    let mut i: usize = 0;
    while i < n
        invariant
            0 <= i <= n,
            n == v@.len(),
            r@.len() == i,
            forall|k: int| 0 <= k < i ==> r.deep_view()[k] == v.deep_view()[k],
        decreases n - i,
    {
        r.push(vstd::slice::slice_to_vec(v[i].as_slice()));
        i = i + 1;
    }
    proof {
        assert(r.deep_view() =~~= v.deep_view());
    }
    r
}

/// Parses a whole Rabobank export.  Rows that fail to normalize become
/// error messages and are skipped; rows whose date, description and
/// amount repeat an earlier accepted row draw a duplicate warning but are
/// still imported; an import without a single transaction draws one
/// warning of its own.  Each imported transaction is auto-categorized
/// from its assembled description.
pub fn parse_rabobank_csv(content: &[u8]) -> (r: CsvImportResult)
    ensures
        ({
            let hs = rab_headers(content@);
            let rows = rab_rows(content@);
            let acc = accepted_rows(hs, rows);
            &&& r.total_rows == rows.len()
            &&& r.imported_rows == acc.len()
            &&& r.transactions@.len() == acc.len()
            &&& forall|k: int|
                0 <= k < acc.len() ==> tx_fields_match(#[trigger] r.transactions@[k], hs, acc[k])
            &&& forall|k: int|
                0 <= k < acc.len() ==> opt_bytes_view(
                    #[trigger] r.transactions@[k].category_id,
                ) == categorize_spec(
                    default_category_table_view(),
                    to_lower(r.transactions@[k].description@),
                )
            &&& r.errors@.len() == failed_indices(hs, rows).len()
            &&& forall|k: int|
                0 <= k < r.errors@.len() ==> (#[trigger] r.errors@[k])@ == row_error_message(
                    hs,
                    rows[failed_indices(hs, rows)[k]],
                    failed_indices(hs, rows)[k] + 2,
                )
            &&& r.warnings@.len() == dup_count(hs, acc, acc.len() as int) + (if acc.len() == 0 {
                1int
            } else {
                0int
            })
            &&& forall|j: int|
                0 <= j < dup_count(hs, acc, acc.len() as int) ==> (#[trigger] r.warnings@[j])@
                    == dup_warning_message(
                    hs,
                    rows[accepted_indices(hs, rows)[flagged_positions(hs, acc, acc.len() as int)[j]]],
                    accepted_indices(hs, rows)[flagged_positions(hs, acc, acc.len() as int)[j]] + 2,
                )
        }),
{
    proof {
        reveal_strlit("Geen geldige transacties gevonden in het CSV-bestand");
        reveal_strlit("Fout op regel ");
        reveal_strlit(": ");
        reveal_strlit("Rij heeft een onverwacht aantal velden");
        reveal_strlit("Mogelijke duplicaat gevonden op regel ");
    }
    let records = split_csv(content, 59);
    let ghost rdv = records.deep_view();
    let ghost hsv = rab_headers(content@);
    let ghost rowsv = rab_rows(content@);
    let n: usize = records.len();
    if n == 0 {
        let mut warnings: Vec<Vec<u8>> = Vec::new();
        warnings.push(lit_bytes("Geen geldige transacties gevonden in het CSV-bestand"));
        return CsvImportResult {
            transactions: Vec::new(),
            errors: Vec::new(),
            warnings,
            total_rows: 0,
            imported_rows: 0,
        };
    }
    let headers = copy_fields(&records[0]);
    proof {
        assert(headers.deep_view() == rdv[0]);
        assert(rowsv =~= rdv.drop_first());
    }
    let mut transactions: Vec<Transaction> = Vec::new();
    let mut errors: Vec<Vec<u8>> = Vec::new();
    let mut warnings: Vec<Vec<u8>> = Vec::new();
    let mut idx: usize = 1;
    proof {
        assert(rowsv.take(0) =~= Seq::<Seq<Seq<u8>>>::empty());
    }
    while idx < n
        invariant
            1 <= idx <= n,
            n == records@.len(),
            rdv == records.deep_view(),
            hsv == rab_headers(content@),
            rowsv == rab_rows(content@),
            rowsv == rdv.drop_first(),
            n - 1 == rowsv.len(),
            headers.deep_view() == hsv,
            ({
                let acc = accepted_rows(hsv, rowsv.take(idx - 1));
                &&& transactions@.len() == acc.len()
                &&& forall|k: int|
                    0 <= k < acc.len() ==> tx_fields_match(
                        #[trigger] transactions@[k],
                        hsv,
                        acc[k],
                    )
                &&& forall|k: int|
                    0 <= k < acc.len() ==> opt_bytes_view(
                        #[trigger] transactions@[k].category_id,
                    ) == categorize_spec(
                        default_category_table_view(),
                        to_lower(transactions@[k].description@),
                    )
                &&& errors@.len() == failed_indices(hsv, rowsv.take(idx - 1)).len()
                &&& forall|k: int|
                    0 <= k < errors@.len() ==> 0 <= #[trigger] failed_indices(
                        hsv,
                        rowsv.take(idx - 1),
                    )[k] < idx - 1
                &&& forall|k: int|
                    0 <= k < errors@.len() ==> (#[trigger] errors@[k])@ == row_error_message(
                        hsv,
                        rowsv[failed_indices(hsv, rowsv.take(idx - 1))[k]],
                        failed_indices(hsv, rowsv.take(idx - 1))[k] + 2,
                    )
                &&& warnings@.len() == dup_count(hsv, acc, acc.len() as int)
                &&& accepted_indices(hsv, rowsv.take(idx - 1)).len() == acc.len()
                &&& forall|k: int|
                    0 <= k < acc.len() ==> 0 <= #[trigger] accepted_indices(
                        hsv,
                        rowsv.take(idx - 1),
                    )[k] < idx - 1
                &&& forall|k: int|
                    0 <= k < acc.len() ==> acc[k] == rowsv[accepted_indices(
                        hsv,
                        rowsv.take(idx - 1),
                    )[k]]
                &&& forall|j: int|
                    0 <= j < warnings@.len() ==> 0 <= #[trigger] flagged_positions(
                        hsv,
                        acc,
                        acc.len() as int,
                    )[j] < acc.len()
                &&& forall|j: int|
                    0 <= j < warnings@.len() ==> (#[trigger] warnings@[j])@ == dup_warning_message(
                        hsv,
                        rowsv[accepted_indices(hsv, rowsv.take(idx - 1))[flagged_positions(
                            hsv,
                            acc,
                            acc.len() as int,
                        )[j]]],
                        accepted_indices(hsv, rowsv.take(idx - 1))[flagged_positions(
                            hsv,
                            acc,
                            acc.len() as int,
                        )[j]] + 2,
                    )
            }),
        decreases n - idx,
    {
        let ghost acc = accepted_rows(hsv, rowsv.take(idx - 1));
        let ghost row = rowsv[idx - 1];
        proof {
            reveal_strlit("Fout op regel ");
            reveal_strlit(": ");
            reveal_strlit("Rij heeft een onverwacht aantal velden");
            reveal_strlit("Mogelijke duplicaat gevonden op regel ");
            assert(rdv[idx as int] == rowsv[idx - 1]);
            assert(rowsv.take(idx as int).drop_last() =~= rowsv.take(idx - 1));
            assert(rowsv.take(idx as int).last() == row);
        }
        let line = idx + 1;
        if records[idx].len() != headers.len() {
            let mut m = lit_bytes("Fout op regel ");
            let d = usize_to_dec(line);
            push_bytes(&mut m, d.as_slice());
            let mid = lit_bytes(": ");
            push_bytes(&mut m, mid.as_slice());
            let inner = lit_bytes("Rij heeft een onverwacht aantal velden");
            push_bytes(&mut m, inner.as_slice());
            proof {
                assert(!row_accepted(hsv, row));
                assert(accepted_rows(hsv, rowsv.take(idx as int)) == acc);
                assert(accepted_indices(hsv, rowsv.take(idx as int)) == accepted_indices(
                    hsv,
                    rowsv.take(idx - 1),
                ));
                assert(failed_indices(hsv, rowsv.take(idx as int)) == failed_indices(
                    hsv,
                    rowsv.take(idx - 1),
                ).push(idx - 1));
                assert(m@ =~= row_error_message(hsv, row, idx + 1));
            }
            errors.push(m);
        } else {
            match parse_rabobank_record(&headers, &records[idx], line) {
                Ok(t) => {
                    let mut t = t;
                    t.category_id = auto_categorize(t.description.as_slice());
                    proof {
                        assert(row_accepted(hsv, row));
                        assert(accepted_rows(hsv, rowsv.take(idx as int)) == acc.push(row));
                        assert(tx_fields_match(t, hsv, row));
                    }
                    // within-batch duplicate scan over the accepted rows
                    let m: usize = transactions.len();
                    let mut j: usize = 0;
                    let mut found = false;
                    while j < m
                        invariant
                            0 <= j <= m,
                            m == transactions@.len(),
                            m == acc.len(),
                            hsv == rab_headers(content@),
                            forall|k: int|
                                0 <= k < acc.len() ==> tx_fields_match(
                                    #[trigger] transactions@[k],
                                    hsv,
                                    acc[k],
                                ),
                            tx_fields_match(t, hsv, row),
                            found == exists|k: int|
                                0 <= k < j && row_key(hsv, #[trigger] acc[k]) == row_key(hsv, row),
                        decreases m - j,
                    {
                        if transactions[j].date == t.date && transactions[j].amount_cents
                            == t.amount_cents && bytes_eq(
                            transactions[j].description.as_slice(),
                            t.description.as_slice(),
                        ) {
                            proof {
                                assert(row_key(hsv, acc[j as int]) == row_key(hsv, row));
                            }
                            found = true;
                        } else {
                            proof {
                                assert(row_key(hsv, acc[j as int]) != row_key(hsv, row));
                            }
                        }
                        j = j + 1;
                    }
                    proof {
                        let acc2 = acc.push(row);
                        lemma_dup_count_push(hsv, acc, row, acc.len() as int);
                        lemma_flagged_positions_push(hsv, acc, row, acc.len() as int);
                        lemma_flagged_positions_range(hsv, acc, acc.len() as int);
                        assert(acc2[acc.len() as int] == row);
                        assert(forall|k: int| 0 <= k < acc.len() ==> acc2[k] == acc[k]);
                        assert(dup_flag(hsv, acc2, acc.len() as int) == found);
                        assert(dup_count(hsv, acc2, acc2.len() as int) == dup_count(
                            hsv,
                            acc,
                            acc.len() as int,
                        ) + (if found {
                            1int
                        } else {
                            0int
                        }));
                        assert(accepted_indices(hsv, rowsv.take(idx as int)) == accepted_indices(
                            hsv,
                            rowsv.take(idx - 1),
                        ).push(idx - 1));
                    }
                    if found {
                        let mut w = lit_bytes("Mogelijke duplicaat gevonden op regel ");
                        let d = usize_to_dec(line);
                        push_bytes(&mut w, d.as_slice());
                        let mid = lit_bytes(": ");
                        push_bytes(&mut w, mid.as_slice());
                        push_bytes(&mut w, t.description.as_slice());
                        proof {
                            assert(w@ =~= dup_warning_message(hsv, row, idx + 1));
                        }
                        warnings.push(w);
                    }
                    transactions.push(t);
                    proof {
                        assert(failed_indices(hsv, rowsv.take(idx as int)) == failed_indices(
                            hsv,
                            rowsv.take(idx - 1),
                        ));
                    }
                },
                Err(m) => {
                    let mut e = lit_bytes("Fout op regel ");
                    let d = usize_to_dec(line);
                    push_bytes(&mut e, d.as_slice());
                    let mid = lit_bytes(": ");
                    push_bytes(&mut e, mid.as_slice());
                    push_bytes(&mut e, m.as_slice());
                    proof {
                        assert(!row_accepted(hsv, row));
                        assert(accepted_rows(hsv, rowsv.take(idx as int)) == acc);
                        assert(accepted_indices(hsv, rowsv.take(idx as int)) == accepted_indices(
                            hsv,
                            rowsv.take(idx - 1),
                        ));
                        assert(failed_indices(hsv, rowsv.take(idx as int)) == failed_indices(
                            hsv,
                            rowsv.take(idx - 1),
                        ).push(idx - 1));
                        assert(e@ =~= row_error_message(hsv, row, idx + 1));
                    }
                    errors.push(e);
                },
            }
        }
        idx = idx + 1;
    }
    proof {
        assert(rowsv.take(n - 1) =~= rowsv);
        lemma_flagged_positions_range(
            hsv,
            accepted_rows(hsv, rowsv),
            accepted_rows(hsv, rowsv).len() as int,
        );
    }
    let imported_rows = transactions.len();
    let total_rows = n - 1;
    if imported_rows == 0 {
        warnings.push(lit_bytes("Geen geldige transacties gevonden in het CSV-bestand"));
    }
    CsvImportResult { transactions, errors, warnings, total_rows, imported_rows }
}

// ---------------------------------------------------------------------------
// Structural validation
// ---------------------------------------------------------------------------

/// The header names a Rabobank export must carry.
pub open spec fn required_rab_headers() -> Seq<Seq<u8>> {
    seq![
        ascii_bytes("Datum"@),
        ascii_bytes("Naam/Omschrijving"@),
        ascii_bytes("Rekening"@),
        ascii_bytes("Tegenrekening"@),
        ascii_bytes("Code"@),
        ascii_bytes("Af/Bij"@),
        ascii_bytes("Bedrag"@),
        ascii_bytes("MutatieSoort"@),
        ascii_bytes("Mededelingen"@),
    ]
}

/// Every required header name appears (trimmed, case-sensitively) in the
/// export's header row.
pub open spec fn valid_structure_spec(content: Seq<u8>) -> bool {
    forall|k: int|
        0 <= k < required_rab_headers().len() ==> header_present(
            rab_headers(content),
            #[trigger] required_rab_headers()[k],
        )
}

/// Checks that the export carries all required Rabobank header columns.
pub fn validate_csv_structure(content: &[u8]) -> (r: bool)
    ensures
        r == valid_structure_spec(content@),
{
    proof {
        reveal_strlit("Datum");
        reveal_strlit("Naam/Omschrijving");
        reveal_strlit("Rekening");
        reveal_strlit("Tegenrekening");
        reveal_strlit("Code");
        reveal_strlit("Af/Bij");
        reveal_strlit("Bedrag");
        reveal_strlit("MutatieSoort");
        reveal_strlit("Mededelingen");
    }
    let records = split_csv(content, 59);
    let headers: Vec<Vec<u8>> = if records.len() > 0 {
        copy_fields(&records[0])
    } else {
        Vec::new()
    };
    proof {
        if records@.len() == 0 {
            assert(headers.deep_view() =~~= rab_headers(content@));
        }
        assert(headers.deep_view() == rab_headers(content@));
    }
    let k0 = lit_bytes("Datum");
    let k1 = lit_bytes("Naam/Omschrijving");
    let k2 = lit_bytes("Rekening");
    let k3 = lit_bytes("Tegenrekening");
    let k4 = lit_bytes("Code");
    let k5 = lit_bytes("Af/Bij");
    let k6 = lit_bytes("Bedrag");
    let k7 = lit_bytes("MutatieSoort");
    let k8 = lit_bytes("Mededelingen");
    let c0 = header_present_exec(&headers, k0.as_slice());
    let c1 = header_present_exec(&headers, k1.as_slice());
    let c2 = header_present_exec(&headers, k2.as_slice());
    let c3 = header_present_exec(&headers, k3.as_slice());
    let c4 = header_present_exec(&headers, k4.as_slice());
    let c5 = header_present_exec(&headers, k5.as_slice());
    let c6 = header_present_exec(&headers, k6.as_slice());
    let c7 = header_present_exec(&headers, k7.as_slice());
    let c8 = header_present_exec(&headers, k8.as_slice());
    let ok = c0 && c1 && c2 && c3 && c4 && c5 && c6 && c7 && c8;
    proof {
        if ok {
            assert forall|k: int| 0 <= k < required_rab_headers().len() implies header_present(
                rab_headers(content@),
                required_rab_headers()[k],
            ) by {
                if k == 0 {
                } else if k == 1 {
                } else if k == 2 {
                } else if k == 3 {
                } else if k == 4 {
                } else if k == 5 {
                } else if k == 6 {
                } else if k == 7 {
                } else {
                    assert(k == 8);
                }
            }
        } else {
            if !c0 {
                assert(!header_present(rab_headers(content@), required_rab_headers()[0]));
            } else if !c1 {
                assert(!header_present(rab_headers(content@), required_rab_headers()[1]));
            } else if !c2 {
                assert(!header_present(rab_headers(content@), required_rab_headers()[2]));
            } else if !c3 {
                assert(!header_present(rab_headers(content@), required_rab_headers()[3]));
            } else if !c4 {
                assert(!header_present(rab_headers(content@), required_rab_headers()[4]));
            } else if !c5 {
                assert(!header_present(rab_headers(content@), required_rab_headers()[5]));
            } else if !c6 {
                assert(!header_present(rab_headers(content@), required_rab_headers()[6]));
            } else if !c7 {
                assert(!header_present(rab_headers(content@), required_rab_headers()[7]));
            } else {
                assert(!header_present(rab_headers(content@), required_rab_headers()[8]));
            }
        }
    }
    ok
}

} // verus!
