//! Core data model: transactions, categories, budgets, insights, and the
//! configuration and result types of the CSV import pipeline.
//!
//! Free text is held as UTF-8 bytes (`Vec<u8>`).  Monetary values are held
//! as non-negative cent magnitudes; the sign of a transaction is carried by
//! its `TransactionType` alone.  Dates are calendar dates (`Date`).

use vstd::prelude::*;
use crate::amount::MAX_AMOUNT_CENTS;
use crate::date::Date;
use crate::text::{ascii_bytes, lit_bytes, push_bytes};

verus! {

/// Whether a transaction moves money in (`Credit`) or out (`Debit`).
#[derive(Debug, Clone, Copy, PartialEq, Eq, Structural)]
pub enum TransactionType {
    Credit,
    Debit,
}

impl Default for TransactionType {
    fn default() -> (r: Self)
        ensures
            r == TransactionType::Debit,
    {
        TransactionType::Debit
    }
}

/// Recurrence cadence, language-agnostic.
#[derive(Debug, Clone, Copy, PartialEq, Eq, Structural)]
pub enum Frequency {
    Weekly,
    Monthly,
    Quarterly,
    Yearly,
}

/// Row-scoped and batch-scoped failures of the import pipeline.
#[derive(Debug, Clone, PartialEq)]
pub enum ImportError {
    /// A CSV record whose field count does not match the header.
    MalformedRow,
    /// A date field that matches none of the accepted patterns.
    InvalidDate(Vec<u8>),
    /// An amount field that is empty, ambiguous or not a number.
    InvalidAmount(Vec<u8>),
    /// A semantic field that the dialect requires but the row lacks.
    MissingRequiredField(Vec<u8>),
    /// The source text could not be read at all (batch-fatal; raised by
    /// callers that do the reading, never by the parsing core).
    IoFailure,
}

pub open spec fn import_error_message(e: ImportError) -> Seq<u8> {
    match e {
        ImportError::MalformedRow => ascii_bytes("Rij heeft een onverwacht aantal velden"@),
        ImportError::InvalidDate(d) => ascii_bytes("Ongeldige datum formaat: "@) + d@,
        ImportError::InvalidAmount(b) => ascii_bytes("Bedrag is ongeldig: "@) + b@,
        ImportError::MissingRequiredField(f) => ascii_bytes("Verplicht veld ontbreekt: "@) + f@,
        ImportError::IoFailure => ascii_bytes("Kan het bestand niet lezen"@),
    }
}

impl ImportError {
    /// Human-readable Dutch message for this failure.
    pub fn message(&self) -> (r: Vec<u8>)
        ensures
            r@ == import_error_message(*self),
    {
        match self {
            ImportError::MalformedRow => {
                proof {
                    reveal_strlit("Rij heeft een onverwacht aantal velden");
                }
                lit_bytes("Rij heeft een onverwacht aantal velden")
            },
            ImportError::InvalidDate(d) => {
                proof {
                    reveal_strlit("Ongeldige datum formaat: ");
                }
                let mut m = lit_bytes("Ongeldige datum formaat: ");
                push_bytes(&mut m, d.as_slice());
                m
            },
            ImportError::InvalidAmount(b) => {
                proof {
                    reveal_strlit("Bedrag is ongeldig: ");
                }
                let mut m = lit_bytes("Bedrag is ongeldig: ");
                push_bytes(&mut m, b.as_slice());
                m
            },
            ImportError::MissingRequiredField(f) => {
                proof {
                    reveal_strlit("Verplicht veld ontbreekt: ");
                }
                let mut m = lit_bytes("Verplicht veld ontbreekt: ");
                push_bytes(&mut m, f.as_slice());
                m
            },
            ImportError::IoFailure => {
                proof {
                    reveal_strlit("Kan het bestand niet lezen");
                }
                lit_bytes("Kan het bestand niet lezen")
            },
        }
    }
}

/// View of an optional byte string.
pub open spec fn opt_bytes_view(o: Option<Vec<u8>>) -> Option<Seq<u8>> {
    match o {
        Some(v) => Some(v@),
        None => None,
    }
}

/// A normalized statement row.  The amount is an absolute cent magnitude;
/// the sign lives in `transaction_type`.
#[derive(Debug, Clone)]
pub struct Transaction {
    pub id: Vec<u8>,
    pub description: Vec<u8>,
    /// Absolute magnitude in cents.
    pub amount_cents: u64,
    pub date: Date,
    pub transaction_type: TransactionType,
    pub category_id: Option<Vec<u8>>,
    pub account_number: Option<Vec<u8>>,
    pub account_holder: Option<Vec<u8>>,
    /// Running balance after this transaction, signed cents.
    pub balance_after_cents: Option<i64>,
    pub notes: Option<Vec<u8>>,
    pub tags: Vec<Vec<u8>>,
    pub is_recurring: bool,
    pub recurring_frequency: Option<Frequency>,
}

impl Transaction {
    /// Well-formed: the magnitude is within the representable cap and the
    /// date is a real calendar date.
    pub open spec fn wf(self) -> bool {
        &&& self.amount_cents <= MAX_AMOUNT_CENTS
        &&& self.date.valid()
    }
}

/// A spending category.
#[derive(Debug, Clone)]
pub struct Category {
    pub id: Vec<u8>,
    pub name: Vec<u8>,
    pub description: Option<Vec<u8>>,
    pub color: Vec<u8>,
    pub icon: Vec<u8>,
    pub parent_id: Option<Vec<u8>>,
    pub is_system: bool,
    /// Optional target share of the overall budget, in tenths of a percent.
    pub budget_percentage_tenths: Option<u32>,
}

/// Budgeting period kind.
#[derive(Debug, Clone, Copy, PartialEq, Eq, Structural)]
pub enum BudgetPeriod {
    Weekly,
    Monthly,
    Quarterly,
    Yearly,
}

/// A budget for one category over a validity window.  `spent_cents` is
/// accumulated from matching transactions; the remaining amount is always
/// derived from `amount_cents - spent_cents`, never stored.
#[derive(Debug, Clone)]
pub struct Budget {
    pub id: Vec<u8>,
    pub name: Vec<u8>,
    pub category_id: Option<Vec<u8>>,
    pub amount_cents: u64,
    pub period: BudgetPeriod,
    pub spent_cents: u64,
    pub is_active: bool,
    pub notification_threshold_cents: Option<u64>,
    pub start_date: Date,
    pub end_date: Option<Date>,
}

impl Budget {
    pub open spec fn wf(self) -> bool {
        &&& self.amount_cents <= MAX_AMOUNT_CENTS
        &&& self.spent_cents <= MAX_AMOUNT_CENTS
        &&& self.start_date.valid()
        &&& match self.end_date {
            Some(e) => e.valid(),
            None => true,
        }
    }

    /// Remaining room: target amount minus accumulated spending, signed.
    pub fn remaining_cents(&self) -> (r: i64)
        requires
            self.wf(),
        ensures
            r == self.amount_cents - self.spent_cents,
    {
        (self.amount_cents as i64) - (self.spent_cents as i64)
    }
}

/// Kind of a generated insight.
#[derive(Debug, Clone, Copy, PartialEq, Eq, Structural)]
pub enum InsightType {
    SpendingPattern,
    BudgetOptimization,
    SavingsOpportunity,
    UnusualActivity,
    RecurringExpense,
    GoalProgress,
}

/// How strongly an insight should be surfaced.
#[derive(Debug, Clone, Copy, PartialEq, Eq, Structural)]
pub enum InsightImpact {
    High,
    Medium,
    Low,
}

/// Direction of the spending trend between two adjacent windows.
#[derive(Debug, Clone, Copy, PartialEq, Eq, Structural)]
pub enum TrendDirection {
    Increasing,
    Decreasing,
    Stable,
}

/// One generated, immutable insight record.
#[derive(Debug, Clone)]
pub struct FinancialInsight {
    pub id: Vec<u8>,
    pub insight_type: InsightType,
    pub title: Vec<u8>,
    pub description: Vec<u8>,
    pub impact: InsightImpact,
    pub actionable: bool,
    pub action_suggestions: Vec<Vec<u8>>,
    /// Heuristic certainty, fixed per analyzer, in percent (0..=100).
    pub confidence_percent: u8,
    /// Day index of the moment the insight was generated.
    pub created_day: u32,
}

/// Spending attributed to one category inside an analysis window.
#[derive(Debug, Clone)]
pub struct CategorySpending {
    pub category_id: Vec<u8>,
    pub category_name: Vec<u8>,
    pub amount_cents: u64,
    pub transaction_count: u32,
    /// Share of the window's debit total, in tenths of a percent.
    pub percentage_tenths: u32,
}

/// Aggregate spending analysis over a window of whole days.
#[derive(Debug, Clone)]
pub struct SpendingAnalysis {
    pub total_spending_cents: u64,
    pub total_income_cents: u64,
    pub net_savings_cents: i64,
    pub top_categories: Vec<CategorySpending>,
    pub average_daily_spending_cents: u64,
    pub spending_trend: TrendDirection,
    pub period_start_day: u32,
    pub period_end_day: u32,
}

/// Result of one CSV import batch.
#[derive(Debug, Clone)]
pub struct CsvImportResult {
    pub transactions: Vec<Transaction>,
    pub errors: Vec<Vec<u8>>,
    pub warnings: Vec<Vec<u8>>,
    pub total_rows: usize,
    pub imported_rows: usize,
}

/// The raw fields of one Rabobank statement row, as exported.
#[derive(Debug, Clone)]
pub struct RabobankTransaction {
    pub datum: Vec<u8>,
    pub naam_omschrijving: Vec<u8>,
    pub rekening: Vec<u8>,
    pub tegenrekening: Vec<u8>,
    pub code: Vec<u8>,
    pub af_bij: Vec<u8>,
    pub bedrag: Vec<u8>,
    pub mutatiesoort: Vec<u8>,
    pub mededelingen: Vec<u8>,
}

/// Column positions of the semantic fields in a headerless export.
#[derive(Debug, Clone)]
pub struct ColumnMapping {
    pub date: Option<usize>,
    pub description: Option<usize>,
    pub amount: Option<usize>,
    pub account_number: Option<usize>,
    pub account_holder: Option<usize>,
    pub transaction_type: Option<usize>,
    pub balance_after: Option<usize>,
}

/// Bank-specific CSV dialect configuration.
#[derive(Debug, Clone)]
pub struct CsvImportConfig {
    pub bank: Vec<u8>,
    pub date_format: Vec<u8>,
    pub delimiter: Vec<u8>,
    pub encoding: Vec<u8>,
    pub has_header_row: bool,
    pub column_mapping: ColumnMapping,
}

impl Default for CsvImportConfig {
    /// The Rabobank dialect: comma-delimited with a header row and the
    /// standard column order.
    fn default() -> (r: Self)
        ensures
            r.bank@ == ascii_bytes("rabobank"@),
            r.date_format@ == ascii_bytes("YYYYMMDD"@),
            r.delimiter@ == ascii_bytes(","@),
            r.encoding@ == ascii_bytes("utf-8"@),
            r.has_header_row,
            r.column_mapping.date == Some(0usize),
            r.column_mapping.description == Some(1usize),
            r.column_mapping.amount == Some(2usize),
            r.column_mapping.account_number == Some(3usize),
            r.column_mapping.account_holder == Some(4usize),
            r.column_mapping.transaction_type == Some(5usize),
            r.column_mapping.balance_after == Some(6usize),
    {
        proof {
            reveal_strlit("rabobank");
            reveal_strlit("YYYYMMDD");
            reveal_strlit(",");
            reveal_strlit("utf-8");
        }
        CsvImportConfig {
            bank: lit_bytes("rabobank"),
            date_format: lit_bytes("YYYYMMDD"),
            delimiter: lit_bytes(","),
            encoding: lit_bytes("utf-8"),
            has_header_row: true,
            column_mapping: ColumnMapping {
                date: Some(0),
                description: Some(1),
                amount: Some(2),
                account_number: Some(3),
                account_holder: Some(4),
                transaction_type: Some(5),
                balance_after: Some(6),
            },
        }
    }
}

/// Static information about the application around this library.
#[derive(Debug, Clone)]
pub struct AppInfo {
    pub name: Vec<u8>,
    pub version: Vec<u8>,
    pub description: Vec<u8>,
}

/// Uniform wrapper around a command outcome, for transport layers.
#[derive(Debug, Clone)]
pub struct CommandResult<T> {
    pub success: bool,
    pub data: Option<T>,
    pub error: Option<Vec<u8>>,
    pub message: Option<Vec<u8>>,
}

impl<T> CommandResult<T> {
    /// A successful outcome carrying `data`.
    pub fn success(data: T) -> (r: Self)
        ensures
            r.success,
            r.data == Some(data),
            r.error is None,
            r.message matches Some(m) && m@ == ascii_bytes("Operatie succesvol"@),
    {
        proof {
            reveal_strlit("Operatie succesvol");
        }
        CommandResult {
            success: true,
            data: Some(data),
            error: None,
            message: Some(lit_bytes("Operatie succesvol")),
        }
    }

    /// A failed outcome carrying the rendered failure message.
    pub fn error(error: ImportError) -> (r: Self)
        ensures
            !r.success,
            r.data is None,
            r.error matches Some(e) && e@ == import_error_message(error),
            r.message matches Some(m) && m@ == import_error_message(error),
    {
        let rendered = error.message();
        let rendered2 = vstd::slice::slice_to_vec(rendered.as_slice());
        CommandResult {
            success: false,
            data: None,
            error: Some(rendered),
            message: Some(rendered2),
        }
    }
}

} // verus!
