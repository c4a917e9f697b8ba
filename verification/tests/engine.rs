use spaarapp::date::Date;
use spaarapp::insights::{
    AIInsightEngine, analyze_budget_performance, analyze_spending_patterns,
    detect_unusual_spending, spending_analysis_as_of, suggest_budget_optimizations,
};
use spaarapp::models::{
    Budget, BudgetPeriod, Category, CommandResult, ImportError, InsightImpact, InsightType,
    Transaction, TransactionType, TrendDirection,
};

fn tx(desc: &str, cents: u64, day: u8, debit: bool) -> Transaction {
    Transaction {
        id: b"test-id".to_vec(),
        description: desc.as_bytes().to_vec(),
        amount_cents: cents,
        date: Date { year: 2024, month: 11, day },
        transaction_type: if debit { TransactionType::Debit } else { TransactionType::Credit },
        category_id: None,
        account_number: None,
        account_holder: None,
        balance_after_cents: None,
        notes: None,
        tags: Vec::new(),
        is_recurring: false,
        recurring_frequency: None,
    }
}

fn with_category(mut t: Transaction, cat: &str) -> Transaction {
    t.category_id = Some(cat.as_bytes().to_vec());
    t
}

fn budget(name: &str, cat: &str, amount_cents: u64, active: bool) -> Budget {
    Budget {
        id: b"b1".to_vec(),
        name: name.as_bytes().to_vec(),
        category_id: Some(cat.as_bytes().to_vec()),
        amount_cents,
        period: BudgetPeriod::Monthly,
        spent_cents: 0,
        is_active: active,
        notification_threshold_cents: None,
        start_date: Date { year: 2024, month: 1, day: 1 },
        end_date: None,
    }
}

#[test]
fn outlier_is_flagged_against_batch_statistics() {
    // five 10.00 debits and one 100.00 debit: the large one lies more
    // than two sample standard deviations above the mean
    let mut ts = Vec::new();
    for d in 1..=5u8 {
        ts.push(tx("koffie", 1000, d, true));
    }
    ts.push(tx("televisie", 10000, 6, true));
    let insights = detect_unusual_spending(&ts);
    assert_eq!(insights.len(), 1);
    assert_eq!(insights[0].insight_type, InsightType::UnusualActivity);
    assert_eq!(insights[0].impact, InsightImpact::Medium);
    let msg = String::from_utf8(insights[0].description.clone()).unwrap();
    assert!(msg.contains("televisie"));
    assert!(msg.contains("100.00"));
}

#[test]
fn equal_amounts_are_never_flagged() {
    // zero variance: nothing qualifies, and nothing crashes
    let ts = vec![tx("a", 1000, 1, true), tx("b", 1000, 2, true), tx("c", 1000, 3, true)];
    assert_eq!(detect_unusual_spending(&ts).len(), 0);
    // fewer than two debits: nothing either
    let one = vec![tx("a", 1000, 1, true)];
    assert_eq!(detect_unusual_spending(&one).len(), 0);
    let none: Vec<Transaction> = Vec::new();
    assert_eq!(detect_unusual_spending(&none).len(), 0);
}

#[test]
fn outlier_just_under_two_deviations_is_not_flagged() {
    // with four 10.00 debits and one 100.00 debit the z-score of the
    // large one is about 1.79 under the n-1 sample variance: no flag
    let mut ts = Vec::new();
    for d in 1..=4u8 {
        ts.push(tx("koffie", 1000, d, true));
    }
    ts.push(tx("televisie", 10000, 5, true));
    assert_eq!(detect_unusual_spending(&ts).len(), 0);
}

#[test]
fn budget_over_ninety_percent_draws_high_alert() {
    let ts = vec![with_category(tx("boodschappen", 9500, 10, true), "supermarkt")];
    let cats: Vec<Category> = Vec::new();
    let b = budget("Boodschappen", "supermarkt", 10000, true);
    let insights = analyze_budget_performance(&ts, &cats, &vec![b]);
    assert_eq!(insights.len(), 1);
    assert_eq!(insights[0].insight_type, InsightType::BudgetOptimization);
    assert_eq!(insights[0].impact, InsightImpact::High);
    let msg = String::from_utf8(insights[0].description.clone()).unwrap();
    assert!(msg.contains("95.0%"));
}

#[test]
fn budget_at_half_utilization_draws_nothing() {
    let ts = vec![with_category(tx("boodschappen", 5000, 10, true), "supermarkt")];
    let cats: Vec<Category> = Vec::new();
    let b = budget("Boodschappen", "supermarkt", 10000, true);
    assert_eq!(analyze_budget_performance(&ts, &cats, &vec![b]).len(), 0);
}

#[test]
fn inactive_or_zero_budgets_draw_nothing() {
    let ts = vec![with_category(tx("x", 9500, 10, true), "supermarkt")];
    let cats: Vec<Category> = Vec::new();
    let inactive = budget("B", "supermarkt", 10000, false);
    let zero = budget("B", "supermarkt", 0, true);
    assert_eq!(analyze_budget_performance(&ts, &cats, &vec![inactive]).len(), 0);
    assert_eq!(analyze_budget_performance(&ts, &cats, &vec![zero]).len(), 0);
}

#[test]
fn three_equal_debits_make_one_recurring_insight() {
    let ts = vec![
        tx("Netflix", 999, 1, true),
        tx("Netflix", 999, 8, true),
        tx("Netflix", 999, 15, true),
        tx("Jumbo", 2500, 2, true),
    ];
    let cats: Vec<Category> = Vec::new();
    let bs: Vec<Budget> = Vec::new();
    let insights = suggest_budget_optimizations(&ts, &cats, &bs);
    assert_eq!(insights.len(), 1);
    assert_eq!(insights[0].insight_type, InsightType::RecurringExpense);
    assert_eq!(insights[0].impact, InsightImpact::Low);
    let msg = String::from_utf8(insights[0].description.clone()).unwrap();
    assert!(msg.contains("3 uitgaven"));
    assert!(msg.contains("9.99"));
}

#[test]
fn two_occurrences_are_not_recurring() {
    let ts = vec![tx("Netflix", 999, 1, true), tx("Netflix", 999, 8, true)];
    let cats: Vec<Category> = Vec::new();
    let bs: Vec<Budget> = Vec::new();
    assert_eq!(suggest_budget_optimizations(&ts, &cats, &bs).len(), 0);
}

#[test]
fn heavy_weekday_is_reported() {
    // 2024-11-04 is a Monday; spend heavily there
    let ts = vec![
        tx("groot", 9000, 4, true),
        tx("klein", 500, 5, true),
        tx("klein", 500, 6, true),
    ];
    let cats: Vec<Category> = Vec::new();
    let insights = analyze_spending_patterns(&ts, &cats);
    assert_eq!(insights.len(), 1);
    assert_eq!(insights[0].insight_type, InsightType::SpendingPattern);
    assert_eq!(insights[0].impact, InsightImpact::High);
    let title = String::from_utf8(insights[0].title.clone()).unwrap();
    assert!(title.contains("Maandag"));
    let msg = String::from_utf8(insights[0].description.clone()).unwrap();
    assert!(msg.contains("90.0%"));
}

#[test]
fn balanced_weekdays_are_not_reported() {
    let ts = vec![
        tx("a", 1000, 4, true),
        tx("b", 1000, 5, true),
        tx("c", 1000, 6, true),
        tx("d", 1000, 7, true),
    ];
    let cats: Vec<Category> = Vec::new();
    assert_eq!(analyze_spending_patterns(&ts, &cats).len(), 0);
}

#[test]
fn spending_analysis_totals_and_trend() {
    // window of 10 days ending at 2024-11-20
    let end = Date { year: 2024, month: 11, day: 20 }.day_number();
    let ts = vec![
        with_category(tx("boodschappen", 3000, 15, true), "supermarkt"),
        with_category(tx("boodschappen", 2000, 16, true), "supermarkt"),
        with_category(tx("trein", 1000, 17, true), "transport"),
        tx("salaris", 20000, 18, false),
        // preceding window: 2024-11-01 .. 2024-11-10
        tx("oud", 9000, 5, true),
    ];
    let r = spending_analysis_as_of(&ts, 10, end);
    assert_eq!(r.total_spending_cents, 6000);
    assert_eq!(r.total_income_cents, 20000);
    assert_eq!(r.net_savings_cents, 14000);
    assert_eq!(r.average_daily_spending_cents, 600);
    assert_eq!(r.spending_trend, TrendDirection::Decreasing);
    assert_eq!(r.top_categories.len(), 2);
    assert_eq!(r.top_categories[0].category_id, b"supermarkt".to_vec());
    assert_eq!(r.top_categories[0].amount_cents, 5000);
    assert_eq!(r.top_categories[0].transaction_count, 2);
    // 5000 of 6000 is 83.3 percent
    assert_eq!(r.top_categories[0].percentage_tenths, 833);
    assert_eq!(r.top_categories[1].category_id, b"transport".to_vec());

    let growing = spending_analysis_as_of(&ts[..4].to_vec(), 10, end);
    assert_eq!(growing.spending_trend, TrendDirection::Increasing);

    let empty: Vec<Transaction> = Vec::new();
    let flat = spending_analysis_as_of(&empty, 10, end);
    assert_eq!(flat.spending_trend, TrendDirection::Stable);
    assert_eq!(flat.average_daily_spending_cents, 0);
    assert_eq!(flat.top_categories.len(), 0);

    let zero_window = spending_analysis_as_of(&ts, 0, end);
    assert_eq!(zero_window.average_daily_spending_cents, 0);
}

#[test]
fn uncategorized_debits_fall_in_their_own_bucket() {
    let end = Date { year: 2024, month: 11, day: 20 }.day_number();
    let ts = vec![tx("los", 1000, 15, true)];
    let r = spending_analysis_as_of(&ts, 10, end);
    assert_eq!(r.top_categories.len(), 1);
    assert_eq!(r.top_categories[0].category_id, b"uncategorized".to_vec());
}

#[test]
fn engine_concatenates_all_four_analyzers() {
    let engine = AIInsightEngine::new();
    let ts = vec![
        tx("Netflix", 999, 1, true),
        tx("Netflix", 999, 8, true),
        tx("Netflix", 999, 15, true),
    ];
    let cats: Vec<Category> = Vec::new();
    let bs: Vec<Budget> = Vec::new();
    let insights = engine.generate_spending_insights(&ts, &cats, &bs);
    // equal amounts on different days: no anomaly; three equal Mondays
    // would be a pattern only if one weekday dominates
    assert!(insights.iter().any(|i| i.insight_type == InsightType::RecurringExpense));
    assert!(insights.iter().all(|i| i.confidence_percent >= 70));
}

#[test]
fn command_result_wraps_success_and_error() {
    let ok: CommandResult<u32> = CommandResult::success(7);
    assert!(ok.success);
    assert_eq!(ok.data, Some(7));
    assert!(ok.error.is_none());
    assert_eq!(ok.message, Some(b"Operatie succesvol".to_vec()));

    let err: CommandResult<u32> = CommandResult::error(ImportError::InvalidDate(b"xx".to_vec()));
    assert!(!err.success);
    assert!(err.data.is_none());
    let msg = String::from_utf8(err.error.unwrap()).unwrap();
    assert_eq!(msg, "Ongeldige datum formaat: xx");
}

#[test]
fn budget_remaining_is_derived() {
    let mut b = budget("B", "supermarkt", 10000, true);
    b.spent_cents = 2500;
    assert_eq!(b.remaining_cents(), 7500);
    b.spent_cents = 12000;
    assert_eq!(b.remaining_cents(), -2000);
}
