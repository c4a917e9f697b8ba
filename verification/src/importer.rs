//! Configurable CSV importer: resolves semantic fields through a
//! pre-declared numeric column mapping instead of header synonyms, for
//! bank exports whose column order is known up front.
//!
//! Unlike the batch parser for the Rabobank dialect, this importer stops
//! at the first row that fails to normalize and reports that row alone.

use vstd::prelude::*;
use crate::amount::{parse_simple_amount, parse_simple_amount_spec};
use crate::csvread::{csv_records_spec, split_csv};
use crate::date::{Date, parse_date, parse_date_spec};
use crate::models::{
    ColumnMapping, CsvImportConfig, ImportError, Transaction, TransactionType, opt_bytes_view,
};
use crate::text::{ascii_bytes, dec_spec, lit_bytes, push_bytes, trim_bytes, trim_spec,
    usize_to_dec};

verus! {

/// The delimiter byte: the first byte of the configured delimiter text,
/// or a comma when it is empty.
pub open spec fn delim_of(d: Seq<u8>) -> u8 {
    if d.len() > 0 {
        d[0]
    } else {
        44u8
    }
}

/// The data rows: all records, less the header row when one is expected.
pub open spec fn importer_rows(content: Seq<u8>, delim: u8, has_header: bool) -> Seq<
    Seq<Seq<u8>>,
> {
    let recs = csv_records_spec(content, delim);
    if has_header {
        if recs.len() > 0 {
            recs.drop_first()
        } else {
            seq![]
        }
    } else {
        recs
    }
}

/// The expected field count: that of the first record read, as a reader
/// that sizes records from the first one enforces.
pub open spec fn importer_width(content: Seq<u8>, delim: u8) -> int {
    let recs = csv_records_spec(content, delim);
    if recs.len() > 0 {
        recs[0].len() as int
    } else {
        0
    }
}

/// A mapped field: the trimmed record field at the configured column,
/// `None` when no column is configured, the column is beyond the record,
/// or the trimmed value is empty.
pub open spec fn map_field(rs: Seq<Seq<u8>>, idx: Option<usize>) -> Option<Seq<u8>> {
    match idx {
        None => None,
        Some(i) => if i < rs.len() && trim_spec(rs[i as int]).len() > 0 {
            Some(trim_spec(rs[i as int]))
        } else {
            None
        },
    }
}

/// A row normalizes when its mapped date field is present and parses and
/// its mapped amount field is present and parses.
pub open spec fn importer_row_ok(m: ColumnMapping, rs: Seq<Seq<u8>>) -> bool {
    &&& map_field(rs, m.date) is Some
    &&& parse_date_spec(map_field(rs, m.date).unwrap()) is Some
    &&& map_field(rs, m.amount) is Some
    &&& parse_simple_amount_spec(map_field(rs, m.amount).unwrap()) is Some
}

/// A row is good when its field count matches the first record and it
/// normalizes.
pub open spec fn importer_row_good(m: ColumnMapping, width: int, rs: Seq<Seq<u8>>) -> bool {
    rs.len() == width && importer_row_ok(m, rs)
}

/// Every normalized field of `t` against the raw row; `record_number` is
/// 1-based.
pub open spec fn importer_tx_matches(
    t: Transaction,
    m: ColumnMapping,
    rs: Seq<Seq<u8>>,
    record_number: int,
) -> bool {
    let amt = parse_simple_amount_spec(map_field(rs, m.amount).unwrap()).unwrap();
    &&& t.id@.len() == 36
    &&& t.description@ == (match map_field(rs, m.description) {
        Some(d) => d,
        None => ascii_bytes("Unknown transaction"@),
    })
    &&& t.amount_cents == amt.1
    &&& t.date == parse_date_spec(map_field(rs, m.date).unwrap()).unwrap()
    &&& t.transaction_type == (if amt.0 {
        TransactionType::Debit
    } else {
        TransactionType::Credit
    })
    &&& t.category_id is None
    &&& opt_bytes_view(t.account_number) == map_field(rs, m.account_number)
    &&& opt_bytes_view(t.account_holder) == map_field(rs, m.account_holder)
    &&& t.balance_after_cents == (match map_field(rs, m.balance_after) {
        Some(b) => match parse_simple_amount_spec(b) {
            Some((neg, v)) => Some(
                (if neg {
                    -(v as int)
                } else {
                    v as int
                }) as i64,
            ),
            None => None::<i64>,
        },
        None => None::<i64>,
    })
    &&& opt_bytes_view(t.notes) == Some(
        ascii_bytes("Imported from CSV - Record "@) + dec_spec(record_number),
    )
    &&& t.tags.deep_view() == seq![ascii_bytes("imported"@)]
    &&& !t.is_recurring
    &&& t.recurring_frequency is None
    &&& t.wf()
}

/// The reported failure of one bad row, without the record prefix.
pub open spec fn importer_row_error(m: ColumnMapping, width: int, rs: Seq<Seq<u8>>) -> Seq<u8> {
    if rs.len() != width {
        ascii_bytes("Rij heeft een onverwacht aantal velden"@)
    } else if map_field(rs, m.date) is None {
        ascii_bytes("Missing date field"@)
    } else if parse_date_spec(map_field(rs, m.date).unwrap()) is None {
        ascii_bytes("Unable to parse date: "@) + map_field(rs, m.date).unwrap()
    } else if map_field(rs, m.amount) is None {
        ascii_bytes("Missing amount field"@)
    } else {
        ascii_bytes("Invalid amount: "@) + map_field(rs, m.amount).unwrap()
    }
}

/// Index of the first row that is not good, if any.
pub open spec fn first_bad_row(m: ColumnMapping, width: int, rows: Seq<Seq<Seq<u8>>>) -> Option<
    int,
>
    decreases rows.len(),
{
    if rows.len() == 0 {
        None
    } else if !importer_row_good(m, width, rows.first()) {
        Some(0)
    } else {
        match first_bad_row(m, width, rows.drop_first()) {
            Some(i) => Some(i + 1),
            None => None,
        }
    }
}

proof fn lemma_first_bad_at(m: ColumnMapping, width: int, rows: Seq<Seq<Seq<u8>>>, i: int)
    requires
        0 <= i < rows.len(),
        !importer_row_good(m, width, rows[i]),
        forall|k: int| 0 <= k < i ==> importer_row_good(m, width, #[trigger] rows[k]),
    ensures
        first_bad_row(m, width, rows) == Some(i),
    decreases i,
{
    if i == 0 {
    } else {
        let t = rows.drop_first();
        assert(forall|k: int| 0 <= k < i - 1 ==> importer_row_good(m, width, #[trigger] t[k]));
        lemma_first_bad_at(m, width, t, i - 1);
    }
}

proof fn lemma_first_bad_none(m: ColumnMapping, width: int, rows: Seq<Seq<Seq<u8>>>)
    requires
        forall|k: int| 0 <= k < rows.len() ==> importer_row_good(m, width, #[trigger] rows[k]),
    ensures
        first_bad_row(m, width, rows).is_none(),
    decreases rows.len(),
{
    if rows.len() > 0 {
        let t = rows.drop_first();
        assert(forall|k: int|
            0 <= k < t.len() ==> importer_row_good(m, width, #[trigger] t[k]));
        lemma_first_bad_none(m, width, t);
    }
}

/// Imports statement rows through a pre-declared column mapping.
pub struct CsvImporter {
    pub config: CsvImportConfig,
}

fn get_field_value(record: &Vec<Vec<u8>>, idx: &Option<usize>) -> (r: Option<Vec<u8>>)
    ensures
        opt_bytes_view(r) == map_field(record.deep_view(), *idx),
{
    match idx {
        None => None,
        Some(i) => {
            if *i < record.len() {
                proof {
                    assert(record.deep_view()[*i as int] == record@[*i as int]@);
                }
                let t = trim_bytes(record[*i].as_slice());
                if t.len() > 0 {
                    Some(t)
                } else {
                    None
                }
            } else {
                None
            }
        },
    }
}

impl CsvImporter {
    pub fn new(config: CsvImportConfig) -> (r: Self)
        ensures
            r.config == config,
    {
        CsvImporter { config }
    }

    /// Parses one date field; fails with `InvalidDate` when no accepted
    /// pattern yields a real calendar date.
    pub fn parse_date(&self, s: &[u8]) -> (r: Result<Date, ImportError>)
        ensures
            match r {
                Ok(d) => parse_date_spec(s@) == Some(d) && d.valid(),
                Err(e) => parse_date_spec(s@) is None && (e matches ImportError::InvalidDate(v)
                    && v@ == s@),
            },
    {
        match parse_date(s) {
            Some(d) => Ok(d),
            None => Err(ImportError::InvalidDate(vstd::slice::slice_to_vec(s))),
        }
    }

    /// Normalizes one raw row through the column mapping.  `record_number`
    /// is 1-based; the error is the bare failure text.
    fn map_record_to_transaction(&self, record: &Vec<Vec<u8>>, record_number: usize) -> (r:
        Result<Transaction, Vec<u8>>)
        ensures
            match r {
                Ok(t) => importer_row_ok(self.config.column_mapping, record.deep_view())
                    && importer_tx_matches(
                    t,
                    self.config.column_mapping,
                    record.deep_view(),
                    record_number as int,
                ),
                Err(m) => !importer_row_ok(self.config.column_mapping, record.deep_view()) && m@
                    == importer_row_error(
                    self.config.column_mapping,
                    record.deep_view().len() as int,
                    record.deep_view(),
                ),
            },
    {
        let m = &self.config.column_mapping;
        let datum = match get_field_value(record, &m.date) {
            Some(d) => d,
            None => {
                proof {
                    reveal_strlit("Missing date field");
                }
                return Err(lit_bytes("Missing date field"));
            },
        };
        let date = match parse_date(datum.as_slice()) {
            Some(d) => d,
            None => {
                proof {
                    reveal_strlit("Unable to parse date: ");
                }
                let mut e = lit_bytes("Unable to parse date: ");
                push_bytes(&mut e, datum.as_slice());
                return Err(e);
            },
        };
        let bedrag = match get_field_value(record, &m.amount) {
            Some(b) => b,
            None => {
                proof {
                    reveal_strlit("Missing amount field");
                }
                return Err(lit_bytes("Missing amount field"));
            },
        };
        let (negative, cents) = match parse_simple_amount(bedrag.as_slice()) {
            Some(p) => p,
            None => {
                proof {
                    reveal_strlit("Invalid amount: ");
                }
                let mut e = lit_bytes("Invalid amount: ");
                push_bytes(&mut e, bedrag.as_slice());
                return Err(e);
            },
        };
        let description = match get_field_value(record, &m.description) {
            Some(d) => d,
            None => {
                proof {
                    reveal_strlit("Unknown transaction");
                }
                lit_bytes("Unknown transaction")
            },
        };
        let account_number = get_field_value(record, &m.account_number);
        let account_holder = get_field_value(record, &m.account_holder);
        let balance_after_cents = match get_field_value(record, &m.balance_after) {
            Some(b) => match parse_simple_amount(b.as_slice()) {
                Some((neg, v)) => Some(
                    if neg {
                        -(v as i64)
                    } else {
                        v as i64
                    },
                ),
                None => None,
            },
            None => None,
        };
        proof {
            reveal_strlit("Imported from CSV - Record ");
            reveal_strlit("imported");
        }
        let mut notes = lit_bytes("Imported from CSV - Record ");
        let d = usize_to_dec(record_number);
        push_bytes(&mut notes, d.as_slice());
        let mut tags: Vec<Vec<u8>> = Vec::new();
        tags.push(lit_bytes("imported"));
        proof {
            assert(tags.deep_view() =~~= seq![ascii_bytes("imported"@)]);
        }
        Ok(
            Transaction {
                id: crate::outside::fresh_id(),
                description,
                amount_cents: cents,
                date,
                transaction_type: if negative {
                    TransactionType::Debit
                } else {
                    TransactionType::Credit
                },
                category_id: None,
                account_number,
                account_holder,
                balance_after_cents,
                notes: Some(notes),
                tags,
                is_recurring: false,
                recurring_frequency: None,
            },
        )
    }

    /// Parses a whole export through the column mapping.  The first row
    /// that fails to normalize aborts the batch with its failure text;
    /// otherwise every row becomes a transaction, in order.
    #[verifier::rlimit(100)]
    pub fn parse_csv_content(&self, content: &[u8]) -> (r: Result<Vec<Transaction>, Vec<u8>>)
        ensures
            ({
                let delim = delim_of(self.config.delimiter@);
                let rows = importer_rows(content@, delim, self.config.has_header_row);
                let width = importer_width(content@, delim);
                let m = self.config.column_mapping;
                match r {
                    Ok(ts) => {
                        &&& first_bad_row(m, width, rows) is None
                        &&& ts@.len() == rows.len()
                        &&& forall|k: int|
                            0 <= k < rows.len() ==> importer_tx_matches(
                                #[trigger] ts@[k],
                                m,
                                rows[k],
                                k + 1,
                            )
                    },
                    Err(msg) => {
                        &&& first_bad_row(m, width, rows) is Some
                        &&& msg@ == ascii_bytes("Record "@) + dec_spec(
                            first_bad_row(m, width, rows).unwrap() + 1,
                        ) + ascii_bytes(": "@) + importer_row_error(
                            m,
                            width,
                            rows[first_bad_row(m, width, rows).unwrap()],
                        )
                    },
                }
            }),
    {
        let delim: u8 = if self.config.delimiter.len() > 0 {
            self.config.delimiter[0]
        } else {
            44
        };
        let records = split_csv(content, delim);
        let ghost rdv = records.deep_view();
        let ghost m = self.config.column_mapping;
        let ghost rowsv = importer_rows(content@, delim, self.config.has_header_row);
        let n: usize = records.len();
        let width: usize = if n > 0 {
            records[0].len()
        } else {
            0
        };
        let start: usize = if self.config.has_header_row {
            if n > 0 {
                1
            } else {
                0
            }
        } else {
            0
        };
        proof {
            if self.config.has_header_row && n > 0 {
                assert(rowsv =~= rdv.drop_first());
            } else {
                assert(rowsv =~= rdv.skip(0));
            }
            assert(rowsv.len() == n - start);
        }
        let mut out: Vec<Transaction> = Vec::new();
        let mut i: usize = start;
        while i < n
            invariant
                start <= i <= n,
                n == records@.len(),
                rdv == records.deep_view(),
                start <= 1,
                delim == delim_of(self.config.delimiter@),
                width == importer_width(content@, delim),
                m == self.config.column_mapping,
                rowsv == importer_rows(content@, delim, self.config.has_header_row),
                rowsv.len() == n - start,
                forall|k: int| 0 <= k < rowsv.len() ==> rowsv[k] == rdv[k + start],
                out@.len() == i - start,
                forall|k: int|
                    0 <= k < i - start ==> importer_row_good(m, width as int, #[trigger] rowsv[k]),
                forall|k: int|
                    0 <= k < i - start ==> importer_tx_matches(
                        #[trigger] out@[k],
                        m,
                        rowsv[k],
                        k + 1,
                    ),
            decreases n - i,
        {
            let rn = i - start;
            if records[i].len() != width {
                proof {
                    reveal_strlit("Record ");
                    reveal_strlit(": ");
                    reveal_strlit("Rij heeft een onverwacht aantal velden");
                    assert(!importer_row_good(m, width as int, rowsv[rn as int]));
                    lemma_first_bad_at(m, width as int, rowsv, rn as int);
                }
                let mut e = lit_bytes("Record ");
                let d = usize_to_dec(rn + 1);
                push_bytes(&mut e, d.as_slice());
                let mid = lit_bytes(": ");
                push_bytes(&mut e, mid.as_slice());
                let inner = lit_bytes("Rij heeft een onverwacht aantal velden");
                push_bytes(&mut e, inner.as_slice());
                proof {
                    assert(e@ =~= ascii_bytes("Record "@) + dec_spec(rn + 1) + ascii_bytes(": "@)
                        + importer_row_error(m, width as int, rowsv[rn as int]));
                }
                return Err(e);
            }
            match self.map_record_to_transaction(&records[i], rn + 1) {
                Ok(t) => {
                    proof {
                        assert(importer_row_good(m, width as int, rowsv[rn as int]));
                    }
                    out.push(t);
                },
                Err(inner) => {
                    proof {
                        reveal_strlit("Record ");
                        reveal_strlit(": ");
                        assert(!importer_row_good(m, width as int, rowsv[rn as int]));
                        lemma_first_bad_at(m, width as int, rowsv, rn as int);
                    }
                    let mut e = lit_bytes("Record ");
                    let d = usize_to_dec(rn + 1);
                    push_bytes(&mut e, d.as_slice());
                    let mid = lit_bytes(": ");
                    push_bytes(&mut e, mid.as_slice());
                    push_bytes(&mut e, inner.as_slice());
                    proof {
                        assert(e@ =~= ascii_bytes("Record "@) + dec_spec(rn + 1) + ascii_bytes(
                            ": "@,
                        ) + importer_row_error(m, width as int, rowsv[rn as int]));
                    }
                    return Err(e);
                },
            }
            i = i + 1;
        }
        proof {
            lemma_first_bad_none(m, width as int, rowsv);
        }
        Ok(out)
    }
}

} // verus!
