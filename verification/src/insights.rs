//! Heuristic insight engine: four independent analyzers over a snapshot
//! of normalized transactions, categories and budgets, plus the aggregate
//! spending analysis over a day window.
//!
//! Every analyzer is pure over its snapshot and never fails: degenerate
//! input (no debits, zero variance, a zero budget) yields fewer or zero
//! insights.  All arithmetic is exact over cents; threshold tests are
//! stated as integer inequalities equivalent to the percentage and
//! z-score rules.

use vstd::prelude::*;
use crate::amount::MAX_AMOUNT_CENTS;
use crate::date::weekday_spec;
use crate::models::{
    Budget, Category, FinancialInsight, InsightImpact, InsightType, Transaction, TransactionType,
    opt_bytes_view,
};
use crate::text::{ascii_bytes, bytes_eq, cents_spec, cents_to_dec, dec_spec, lit_bytes, push_bytes,
    u64_to_dec};

verus! {

/// Cap on the snapshot size an analysis accepts; keeps every sum and
/// product of the statistics inside 128-bit arithmetic.
pub const MAX_ANALYSIS_ROWS: usize = 100_000;

pub open spec fn is_debit(t: Transaction) -> bool {
    t.transaction_type == TransactionType::Debit
}

pub open spec fn is_credit(t: Transaction) -> bool {
    t.transaction_type == TransactionType::Credit
}

/// Every transaction well-formed.
pub open spec fn wf_transactions(ts: Seq<Transaction>) -> bool {
    forall|i: int| 0 <= i < ts.len() ==> (#[trigger] ts[i]).wf()
}

/// Every budget well-formed.
pub open spec fn wf_budgets(bs: Seq<Budget>) -> bool {
    forall|i: int| 0 <= i < bs.len() ==> (#[trigger] bs[i]).wf()
}

/// Total debit cents.
pub open spec fn debit_total(ts: Seq<Transaction>) -> int
    decreases ts.len(),
{
    if ts.len() == 0 {
        0
    } else {
        debit_total(ts.drop_last()) + (if is_debit(ts.last()) {
            ts.last().amount_cents as int
        } else {
            0int
        })
    }
}

/// Total debit cents on weekday `w` (Monday = 0).
pub open spec fn debit_day_total(ts: Seq<Transaction>, w: int) -> int
    decreases ts.len(),
{
    if ts.len() == 0 {
        0
    } else {
        debit_day_total(ts.drop_last(), w) + (if is_debit(ts.last()) && weekday_spec(
            ts.last().date,
        ) == w {
            ts.last().amount_cents as int
        } else {
            0int
        })
    }
}

proof fn lemma_debit_total_bound(ts: Seq<Transaction>)
    requires
        wf_transactions(ts),
    ensures
        0 <= debit_total(ts) <= ts.len() * MAX_AMOUNT_CENTS,
    decreases ts.len(),
{
    if ts.len() > 0 {
        assert(wf_transactions(ts.drop_last())) by {
            assert(forall|i: int| 0 <= i < ts.len() - 1 ==> ts.drop_last()[i] == ts[i]);
        }
        lemma_debit_total_bound(ts.drop_last());
        assert(ts.last().wf());
    }
}

proof fn lemma_debit_day_total_bound(ts: Seq<Transaction>, w: int)
    requires
        wf_transactions(ts),
    ensures
        0 <= debit_day_total(ts, w) <= debit_total(ts),
    decreases ts.len(),
{
    if ts.len() > 0 {
        assert(wf_transactions(ts.drop_last())) by {
            assert(forall|i: int| 0 <= i < ts.len() - 1 ==> ts.drop_last()[i] == ts[i]);
        }
        lemma_debit_day_total_bound(ts.drop_last(), w);
        assert(ts.last().wf());
    }
}

/// The weekday with the greatest debit total, the smallest index first
/// on ties.
pub open spec fn best_day_from(ts: Seq<Transaction>, w: int) -> int
    decreases 7 - w,
{
    if w >= 6 {
        6
    } else {
        let b = best_day_from(ts, w + 1);
        if debit_day_total(ts, w) >= debit_day_total(ts, b) {
            w
        } else {
            b
        }
    }
}

pub open spec fn best_day(ts: Seq<Transaction>) -> int {
    best_day_from(ts, 0)
}

/// Dutch weekday name, Monday first.
pub open spec fn day_name(w: int) -> Seq<u8> {
    if w == 0 {
        ascii_bytes("Maandag"@)
    } else if w == 1 {
        ascii_bytes("Dinsdag"@)
    } else if w == 2 {
        ascii_bytes("Woensdag"@)
    } else if w == 3 {
        ascii_bytes("Donderdag"@)
    } else if w == 4 {
        ascii_bytes("Vrijdag"@)
    } else if w == 5 {
        ascii_bytes("Zaterdag"@)
    } else {
        ascii_bytes("Zondag"@)
    }
}

/// One decimal place of a tenths-of-a-percent value, e.g. `375` as `37.5`.
pub open spec fn tenths_render(t: int) -> Seq<u8> {
    dec_spec(t / 10) + seq![46u8, (48 + t % 10) as u8]
}

fn render_tenths(t: u64) -> (r: Vec<u8>)
    ensures
        r@ == tenths_render(t as int),
{
    let mut r = u64_to_dec(t / 10);
    r.push(46);
    r.push(48 + ((t % 10) as u8));
    proof {
        assert(r@ =~= tenths_render(t as int));
    }
    r
}

/// The euro sign followed by a cent amount with two decimals.
pub open spec fn euro_render(c: int) -> Seq<u8> {
    crate::amount::euro_seq() + cents_spec(c)
}

fn render_euro(c: u64) -> (r: Vec<u8>)
    ensures
        r@ == euro_render(c as int),
{
    let mut r: Vec<u8> = Vec::new();
    r.push(0xE2);
    r.push(0x82);
    r.push(0xAC);
    let cents = cents_to_dec(c);
    push_bytes(&mut r, cents.as_slice());
    proof {
        assert(r@ =~= euro_render(c as int));
    }
    r
}

// ---------------------------------------------------------------------------
// Spending-pattern analyzer
// ---------------------------------------------------------------------------

/// The one spending-pattern insight is emitted when the top weekday's
/// share of the weekly debit total exceeds 30 percent.
pub open spec fn pattern_emitted(ts: Seq<Transaction>) -> bool {
    let total = debit_total(ts);
    let a = debit_day_total(ts, best_day(ts));
    total > 0 && a * 10 > 3 * total
}

pub open spec fn pattern_suggestions() -> Seq<Seq<u8>> {
    seq![
        ascii_bytes("Bekijk welke aankopen dit veroorzaken"@),
        ascii_bytes("Overweeg een budget in te stellen voor deze dag"@),
        ascii_bytes("Plan grote aankopen op andere dagen"@),
    ]
}

/// The full content of the spending-pattern insight.
pub open spec fn pattern_insight_matches(ins: FinancialInsight, ts: Seq<Transaction>) -> bool {
    let w = best_day(ts);
    let a = debit_day_total(ts, w);
    let total = debit_total(ts);
    let pct = a * 1000 / total;
    &&& ins.id@.len() == 36
    &&& ins.insight_type == InsightType::SpendingPattern
    &&& ins.title@ == ascii_bytes("Hoog uitgavenpatroon op "@) + day_name(w)
    &&& ins.description@ == ascii_bytes("U geeft "@) + tenths_render(pct) + ascii_bytes(
        "% van uw wekelijkse uitgaven uit op "@,
    ) + day_name(w) + ascii_bytes(" ("@) + euro_render(a) + ascii_bytes(")."@)
    &&& ins.impact == (if a * 2 > total {
        InsightImpact::High
    } else {
        InsightImpact::Medium
    })
    &&& ins.actionable
    &&& ins.action_suggestions.deep_view() == pattern_suggestions()
    &&& ins.confidence_percent == 80
}

/// Buckets debit spending by weekday and reports the heaviest weekday
/// when it carries more than 30 percent of the weekly total; `high`
/// impact above half the total, `medium` otherwise.
pub fn analyze_spending_patterns(transactions: &Vec<Transaction>, _categories: &Vec<Category>) -> (r:
    Vec<FinancialInsight>)
    requires
        transactions@.len() <= MAX_ANALYSIS_ROWS,
        wf_transactions(transactions@),
    ensures
        pattern_emitted(transactions@) ==> r@.len() == 1 && pattern_insight_matches(
            r@[0],
            transactions@,
        ),
        !pattern_emitted(transactions@) ==> r@.len() == 0,
{
    let ghost tsv = transactions@;
    let n: usize = transactions.len();
    let mut totals: Vec<u64> = Vec::new();
    let mut w0: usize = 0;
    while w0 < 7
        invariant
            0 <= w0 <= 7,
            totals@.len() == w0,
            forall|w: int| 0 <= w < w0 ==> totals@[w] == 0,
        decreases 7 - w0,
    {
        totals.push(0);
        w0 = w0 + 1;
    }
    let mut total: u64 = 0;
    let mut i: usize = 0;
    proof {
        assert(tsv.take(0) =~= Seq::<Transaction>::empty());
    }
    while i < n
        invariant
            0 <= i <= n,
            n == tsv.len(),
            tsv == transactions@,
            tsv.len() <= MAX_ANALYSIS_ROWS,
            wf_transactions(tsv),
            totals@.len() == 7,
            total == debit_total(tsv.take(i as int)),
            total <= i * MAX_AMOUNT_CENTS,
            forall|w: int| 0 <= w < 7 ==> totals@[w] == debit_day_total(tsv.take(i as int), w),
        decreases n - i,
    {
        proof {
            assert(tsv.take(i + 1).drop_last() =~= tsv.take(i as int));
            assert(tsv.take(i + 1).last() == tsv[i as int]);
            assert(tsv[i as int].wf());
            lemma_debit_day_total_bound(tsv.take(i as int), weekday_spec(tsv[i as int].date));
            lemma_debit_total_bound(tsv.take(i as int));
        }
        let t = &transactions[i];
        if matches!(t.transaction_type, TransactionType::Debit) {
            let w = t.date.weekday_from_monday() as usize;
            let cur = totals[w];
            totals.set(w, cur + t.amount_cents);
            total = total + t.amount_cents;
        }
        proof {
            assert(forall|w: int|
                0 <= w < 7 ==> totals@[w] == debit_day_total(tsv.take(i + 1), w));
        }
        i = i + 1;
    }
    proof {
        assert(tsv.take(n as int) =~= tsv);
    }
    // heaviest weekday, smallest index on ties
    let mut best: usize = 6;
    let mut w: usize = 6;
    while w > 0
        invariant
            0 <= w <= 6,
            best < 7,
            totals@.len() == 7,
            forall|x: int| 0 <= x < 7 ==> totals@[x] == debit_day_total(tsv, x),
            best == best_day_from(tsv, w as int),
        decreases w,
    {
        if totals[w - 1] >= totals[best] {
            best = w - 1;
        }
        w = w - 1;
    }
    let mut out: Vec<FinancialInsight> = Vec::new();
    let a = totals[best];
    proof {
        lemma_debit_total_bound(tsv);
        lemma_debit_day_total_bound(tsv, best as int);
    }
    if total > 0 && a * 10 > 3 * total {
        proof {
            reveal_strlit("Hoog uitgavenpatroon op ");
            reveal_strlit("U geeft ");
            reveal_strlit("% van uw wekelijkse uitgaven uit op ");
            reveal_strlit(" (");
            reveal_strlit(").");
            reveal_strlit("Maandag");
            reveal_strlit("Dinsdag");
            reveal_strlit("Woensdag");
            reveal_strlit("Donderdag");
            reveal_strlit("Vrijdag");
            reveal_strlit("Zaterdag");
            reveal_strlit("Zondag");
            reveal_strlit("Bekijk welke aankopen dit veroorzaken");
            reveal_strlit("Overweeg een budget in te stellen voor deze dag");
            reveal_strlit("Plan grote aankopen op andere dagen");
        }
        let name: Vec<u8> = if best == 0 {
            lit_bytes("Maandag")
        } else if best == 1 {
            lit_bytes("Dinsdag")
        } else if best == 2 {
            lit_bytes("Woensdag")
        } else if best == 3 {
            lit_bytes("Donderdag")
        } else if best == 4 {
            lit_bytes("Vrijdag")
        } else if best == 5 {
            lit_bytes("Zaterdag")
        } else {
            lit_bytes("Zondag")
        };
        let mut title = lit_bytes("Hoog uitgavenpatroon op ");
        push_bytes(&mut title, name.as_slice());
        let pct = a * 1000 / total;
        let mut description = lit_bytes("U geeft ");
        let pr = render_tenths(pct);
        push_bytes(&mut description, pr.as_slice());
        let mid = lit_bytes("% van uw wekelijkse uitgaven uit op ");
        push_bytes(&mut description, mid.as_slice());
        push_bytes(&mut description, name.as_slice());
        let open_paren = lit_bytes(" (");
        push_bytes(&mut description, open_paren.as_slice());
        let er = render_euro(a);
        push_bytes(&mut description, er.as_slice());
        let close_paren = lit_bytes(").");
        push_bytes(&mut description, close_paren.as_slice());
        let mut action_suggestions: Vec<Vec<u8>> = Vec::new();
        action_suggestions.push(lit_bytes("Bekijk welke aankopen dit veroorzaken"));
        action_suggestions.push(lit_bytes("Overweeg een budget in te stellen voor deze dag"));
        action_suggestions.push(lit_bytes("Plan grote aankopen op andere dagen"));
        proof {
            assert(action_suggestions.deep_view() =~~= pattern_suggestions());
            assert(title@ =~= ascii_bytes("Hoog uitgavenpatroon op "@) + day_name(best as int));
            assert(description@ =~= ascii_bytes("U geeft "@) + tenths_render(pct as int)
                + ascii_bytes("% van uw wekelijkse uitgaven uit op "@) + day_name(best as int)
                + ascii_bytes(" ("@) + euro_render(a as int) + ascii_bytes(")."@));
        }
        let impact = if a * 2 > total {
            InsightImpact::High
        } else {
            InsightImpact::Medium
        };
        out.push(
            FinancialInsight {
                id: crate::outside::fresh_id(),
                insight_type: InsightType::SpendingPattern,
                title,
                description,
                impact,
                actionable: true,
                action_suggestions,
                confidence_percent: 80,
                created_day: crate::outside::today_day_index(),
            },
        );
    }
    out
}

// ---------------------------------------------------------------------------
// Budget-performance analyzer
// ---------------------------------------------------------------------------

/// A transaction counts against a budget when it is a debit on the same
/// category whose date falls in the budget's validity window.
pub open spec fn budget_matches(t: Transaction, b: Budget) -> bool {
    &&& is_debit(t)
    &&& opt_bytes_view(t.category_id) == opt_bytes_view(b.category_id)
    &&& crate::date::day_index_spec(t.date) >= crate::date::day_index_spec(b.start_date)
    &&& match b.end_date {
        Some(e) => crate::date::day_index_spec(t.date) <= crate::date::day_index_spec(e),
        None => true,
    }
}

/// Cents of debit spending matched to budget `b`.
pub open spec fn budget_spending(ts: Seq<Transaction>, b: Budget) -> int
    decreases ts.len(),
{
    if ts.len() == 0 {
        0
    } else {
        budget_spending(ts.drop_last(), b) + (if budget_matches(ts.last(), b) {
            ts.last().amount_cents as int
        } else {
            0int
        })
    }
}

proof fn lemma_budget_spending_bound(ts: Seq<Transaction>, b: Budget)
    requires
        wf_transactions(ts),
    ensures
        0 <= budget_spending(ts, b) <= ts.len() * MAX_AMOUNT_CENTS,
    decreases ts.len(),
{
    if ts.len() > 0 {
        assert(wf_transactions(ts.drop_last())) by {
            assert(forall|i: int| 0 <= i < ts.len() - 1 ==> ts.drop_last()[i] == ts[i]);
        }
        lemma_budget_spending_bound(ts.drop_last(), b);
        assert(ts.last().wf());
    }
}

/// A budget draws the alert when it is active, has a nonzero target, and
/// its utilization exceeds 90 percent.
pub open spec fn budget_over(ts: Seq<Transaction>, b: Budget) -> bool {
    b.is_active && b.amount_cents > 0 && budget_spending(ts, b) * 10 > 9 * b.amount_cents
}

/// The budgets that draw an alert, in input order.
pub open spec fn budget_alerts(ts: Seq<Transaction>, bs: Seq<Budget>) -> Seq<Budget>
    decreases bs.len(),
{
    if bs.len() == 0 {
        seq![]
    } else {
        let rest = budget_alerts(ts, bs.drop_last());
        if budget_over(ts, bs.last()) {
            rest.push(bs.last())
        } else {
            rest
        }
    }
}

pub open spec fn budget_suggestions() -> Seq<Seq<u8>> {
    seq![
        ascii_bytes("Beperk verdere uitgaven in deze categorie"@),
        ascii_bytes("Overweeg het budget te verhogen indien nodig"@),
        ascii_bytes("Zoek naar manieren om te besparen in deze categorie"@),
    ]
}

/// The full content of one budget alert.
pub open spec fn budget_insight_matches(ins: FinancialInsight, ts: Seq<Transaction>, b: Budget) -> bool {
    let spent = budget_spending(ts, b);
    let pct = spent * 1000 / b.amount_cents as int;
    &&& ins.id@.len() == 36
    &&& ins.insight_type == InsightType::BudgetOptimization
    &&& ins.title@ == ascii_bytes("Budget bijna bereikt: "@) + b.name@
    &&& ins.description@ == ascii_bytes("U heeft "@) + tenths_render(pct) + ascii_bytes(
        "% van uw budget voor "@,
    ) + b.name@ + ascii_bytes(" gebruikt ("@) + euro_render(spent) + ascii_bytes(" van "@)
        + euro_render(b.amount_cents as int) + ascii_bytes(")."@)
    &&& ins.impact == InsightImpact::High
    &&& ins.actionable
    &&& ins.action_suggestions.deep_view() == budget_suggestions()
    &&& ins.confidence_percent == 90
}

fn opt_bytes_eq(a: &Option<Vec<u8>>, b: &Option<Vec<u8>>) -> (r: bool)
    ensures
        r == (opt_bytes_view(*a) == opt_bytes_view(*b)),
{
    match (a, b) {
        (None, None) => true,
        (Some(x), Some(y)) => crate::text::bytes_eq(x.as_slice(), y.as_slice()),
        _ => false,
    }
}

fn budget_matches_exec(t: &Transaction, b: &Budget) -> (r: bool)
    requires
        t.wf(),
        b.wf(),
    ensures
        r == budget_matches(*t, *b),
{
    if !matches!(t.transaction_type, TransactionType::Debit) {
        return false;
    }
    if !opt_bytes_eq(&t.category_id, &b.category_id) {
        return false;
    }
    let td = t.date.day_number();
    if td < b.start_date.day_number() {
        return false;
    }
    match &b.end_date {
        Some(e) => td <= e.day_number(),
        None => true,
    }
}

/// Sums the matching debit spending for each active budget and raises a
/// `high`-impact alert for every budget whose utilization exceeds 90
/// percent of its target.
pub fn analyze_budget_performance(
    transactions: &Vec<Transaction>,
    _categories: &Vec<Category>,
    budgets: &Vec<Budget>,
) -> (r: Vec<FinancialInsight>)
    requires
        transactions@.len() <= MAX_ANALYSIS_ROWS,
        wf_transactions(transactions@),
        wf_budgets(budgets@),
    ensures
        r@.len() == budget_alerts(transactions@, budgets@).len(),
        forall|k: int|
            0 <= k < r@.len() ==> budget_insight_matches(
                #[trigger] r@[k],
                transactions@,
                budget_alerts(transactions@, budgets@)[k],
            ),
{
    let ghost tsv = transactions@;
    let ghost bsv = budgets@;
    let nb: usize = budgets.len();
    let mut out: Vec<FinancialInsight> = Vec::new();
    let mut j: usize = 0;
    proof {
        assert(bsv.take(0) =~= Seq::<Budget>::empty());
    }
    while j < nb
        invariant
            0 <= j <= nb,
            nb == bsv.len(),
            tsv == transactions@,
            bsv == budgets@,
            tsv.len() <= MAX_ANALYSIS_ROWS,
            wf_transactions(tsv),
            wf_budgets(bsv),
            out@.len() == budget_alerts(tsv, bsv.take(j as int)).len(),
            forall|k: int|
                0 <= k < out@.len() ==> budget_insight_matches(
                    #[trigger] out@[k],
                    tsv,
                    budget_alerts(tsv, bsv.take(j as int))[k],
                ),
        decreases nb - j,
    {
        let ghost b = bsv[j as int];
        proof {
            assert(bsv.take(j + 1).drop_last() =~= bsv.take(j as int));
            assert(bsv.take(j + 1).last() == b);
            assert(b.wf());
        }
        let budget = &budgets[j];
        if budget.is_active && budget.amount_cents > 0 {
            // sum the matching debit spending
            let n: usize = transactions.len();
            let mut spent: u64 = 0;
            let mut i: usize = 0;
            proof {
                assert(tsv.take(0) =~= Seq::<Transaction>::empty());
            }
            while i < n
                invariant
                    0 <= i <= n,
                    n == tsv.len(),
                    tsv == transactions@,
                    bsv == budgets@,
                    j < bsv.len(),
                    b == bsv[j as int],
                    tsv.len() <= MAX_ANALYSIS_ROWS,
                    wf_transactions(tsv),
                    b.wf(),
                    spent == budget_spending(tsv.take(i as int), b),
                    spent <= i * MAX_AMOUNT_CENTS,
                decreases n - i,
            {
                proof {
                    assert(tsv.take(i + 1).drop_last() =~= tsv.take(i as int));
                    assert(tsv.take(i + 1).last() == tsv[i as int]);
                    assert(tsv[i as int].wf());
                }
                if budget_matches_exec(&transactions[i], &budgets[j]) {
                    spent = spent + transactions[i].amount_cents;
                }
                i = i + 1;
            }
            proof {
                assert(tsv.take(n as int) =~= tsv);
            }
            if spent * 10 > 9 * budget.amount_cents {
                proof {
                    reveal_strlit("Budget bijna bereikt: ");
                    reveal_strlit("U heeft ");
                    reveal_strlit("% van uw budget voor ");
                    reveal_strlit(" gebruikt (");
                    reveal_strlit(" van ");
                    reveal_strlit(").");
                    reveal_strlit("Beperk verdere uitgaven in deze categorie");
                    reveal_strlit("Overweeg het budget te verhogen indien nodig");
                    reveal_strlit("Zoek naar manieren om te besparen in deze categorie");
                }
                let mut title = lit_bytes("Budget bijna bereikt: ");
                push_bytes(&mut title, budget.name.as_slice());
                let pct = spent * 1000 / budget.amount_cents;
                let mut description = lit_bytes("U heeft ");
                let pr = render_tenths(pct);
                push_bytes(&mut description, pr.as_slice());
                let mid1 = lit_bytes("% van uw budget voor ");
                push_bytes(&mut description, mid1.as_slice());
                push_bytes(&mut description, budget.name.as_slice());
                let mid2 = lit_bytes(" gebruikt (");
                push_bytes(&mut description, mid2.as_slice());
                let er1 = render_euro(spent);
                push_bytes(&mut description, er1.as_slice());
                let mid3 = lit_bytes(" van ");
                push_bytes(&mut description, mid3.as_slice());
                let er2 = render_euro(budget.amount_cents);
                push_bytes(&mut description, er2.as_slice());
                let close_paren = lit_bytes(").");
                push_bytes(&mut description, close_paren.as_slice());
                let mut action_suggestions: Vec<Vec<u8>> = Vec::new();
                action_suggestions.push(lit_bytes("Beperk verdere uitgaven in deze categorie"));
                action_suggestions.push(lit_bytes("Overweeg het budget te verhogen indien nodig"));
                action_suggestions.push(
                    lit_bytes("Zoek naar manieren om te besparen in deze categorie"),
                );
                proof {
                    assert(action_suggestions.deep_view() =~~= budget_suggestions());
                    assert(title@ =~= ascii_bytes("Budget bijna bereikt: "@) + b.name@);
                    assert(description@ =~= ascii_bytes("U heeft "@) + tenths_render(pct as int)
                        + ascii_bytes("% van uw budget voor "@) + b.name@ + ascii_bytes(
                        " gebruikt ("@,
                    ) + euro_render(spent as int) + ascii_bytes(" van "@) + euro_render(
                        b.amount_cents as int,
                    ) + ascii_bytes(")."@));
                }
                out.push(
                    FinancialInsight {
                        id: crate::outside::fresh_id(),
                        insight_type: InsightType::BudgetOptimization,
                        title,
                        description,
                        impact: InsightImpact::High,
                        actionable: true,
                        action_suggestions,
                        confidence_percent: 90,
                        created_day: crate::outside::today_day_index(),
                    },
                );
                proof {
                    assert(budget_over(tsv, b));
                    assert(budget_alerts(tsv, bsv.take(j + 1)) =~= budget_alerts(
                        tsv,
                        bsv.take(j as int),
                    ).push(b));
                }
            } else {
                proof {
                    assert(!budget_over(tsv, b));
                    assert(budget_alerts(tsv, bsv.take(j + 1)) =~= budget_alerts(
                        tsv,
                        bsv.take(j as int),
                    ));
                }
            }
        } else {
            proof {
                assert(!budget_over(tsv, b));
                assert(budget_alerts(tsv, bsv.take(j + 1)) =~= budget_alerts(
                    tsv,
                    bsv.take(j as int),
                ));
            }
        }
        j = j + 1;
    }
    proof {
        assert(bsv.take(nb as int) =~= bsv);
    }
    out
}

// ---------------------------------------------------------------------------
// Anomaly detector
// ---------------------------------------------------------------------------

/// Number of debit transactions.
pub open spec fn debit_count(ts: Seq<Transaction>) -> int
    decreases ts.len(),
{
    if ts.len() == 0 {
        0
    } else {
        debit_count(ts.drop_last()) + (if is_debit(ts.last()) {
            1int
        } else {
            0int
        })
    }
}

/// Sum of squared debit cents.
pub open spec fn debit_sq_total(ts: Seq<Transaction>) -> int
    decreases ts.len(),
{
    if ts.len() == 0 {
        0
    } else {
        debit_sq_total(ts.drop_last()) + (if is_debit(ts.last()) {
            ts.last().amount_cents * ts.last().amount_cents
        } else {
            0int
        })
    }
}

proof fn lemma_debit_stats_bounds(ts: Seq<Transaction>)
    requires
        wf_transactions(ts),
    ensures
        0 <= debit_count(ts) <= ts.len(),
        0 <= debit_sq_total(ts) <= ts.len() * MAX_AMOUNT_CENTS * MAX_AMOUNT_CENTS,
    decreases ts.len(),
{
    if ts.len() > 0 {
        assert(wf_transactions(ts.drop_last())) by {
            assert(forall|i: int| 0 <= i < ts.len() - 1 ==> ts.drop_last()[i] == ts[i]);
        }
        lemma_debit_stats_bounds(ts.drop_last());
        assert(ts.last().wf());
        let a = ts.last().amount_cents as int;
        assert(a * a <= MAX_AMOUNT_CENTS * MAX_AMOUNT_CENTS) by (nonlinear_arith)
            requires
                0 <= a <= MAX_AMOUNT_CENTS,
        ;
    }
}

/// The z-score test, as an exact integer inequality: with `n` debits of
/// total `s` and squared total `q`, an amount `a` lies more than two
/// sample standard deviations above the mean exactly when `d = a*n - s`
/// is positive and `d*d*(n-1) > 4*n*(n*q - s*s)`.  With fewer than two
/// debits, or zero variance, nothing qualifies.
pub open spec fn anomaly_test_spec(a: int, n: int, s: int, q: int) -> bool {
    let d = a * n - s;
    let v = n * q - s * s;
    &&& n >= 2
    &&& d > 0
    &&& d * d * (n - 1) > 4 * n * v
}

/// A debit transaction whose amount stands out from the batch statistics.
pub open spec fn anomaly_flagged(ts: Seq<Transaction>, t: Transaction) -> bool {
    is_debit(t) && anomaly_test_spec(
        t.amount_cents as int,
        debit_count(ts),
        debit_total(ts),
        debit_sq_total(ts),
    )
}

/// The flagged transactions among the first `upto`, in input order.
pub open spec fn flagged_prefix(ts: Seq<Transaction>, upto: int) -> Seq<Transaction>
    decreases upto,
{
    if upto <= 0 {
        seq![]
    } else {
        let rest = flagged_prefix(ts, upto - 1);
        if anomaly_flagged(ts, ts[upto - 1]) {
            rest.push(ts[upto - 1])
        } else {
            rest
        }
    }
}

pub open spec fn flagged_txs(ts: Seq<Transaction>) -> Seq<Transaction> {
    flagged_prefix(ts, ts.len() as int)
}

pub open spec fn anomaly_suggestions() -> Seq<Seq<u8>> {
    seq![
        ascii_bytes("Controleer of deze uitgave correct is"@),
        ascii_bytes("Overweeg om dit soort uitgaven in de toekomst te plannen"@),
    ]
}

/// The full content of one unusual-activity insight.
pub open spec fn anomaly_insight_matches(ins: FinancialInsight, t: Transaction) -> bool {
    &&& ins.id@.len() == 36
    &&& ins.insight_type == InsightType::UnusualActivity
    &&& ins.title@ == ascii_bytes("Ongebruikelijk hoge uitgave gedetecteerd"@)
    &&& ins.description@ == ascii_bytes("De transactie '"@) + t.description@ + ascii_bytes(
        "' ("@,
    ) + euro_render(t.amount_cents as int) + ascii_bytes(
        ") is significant hoger dan uw gemiddelde uitgaven."@,
    )
    &&& ins.impact == InsightImpact::Medium
    &&& ins.actionable
    &&& ins.action_suggestions.deep_view() == anomaly_suggestions()
    &&& ins.confidence_percent == 70
}

/// Evaluates the z-score inequality on the batch statistics.
fn anomaly_test(a: u64, n: u64, s: u64, q: u128) -> (r: bool)
    requires
        n <= MAX_ANALYSIS_ROWS,
        a <= MAX_AMOUNT_CENTS,
        s <= n * MAX_AMOUNT_CENTS,
        q <= n * MAX_AMOUNT_CENTS * MAX_AMOUNT_CENTS,
    ensures
        r == anomaly_test_spec(a as int, n as int, s as int, q as int),
{
    if n < 2 {
        return false;
    }
    let ai: i128 = a as i128;
    let ni: i128 = n as i128;
    let si: i128 = s as i128;
    let qi: i128 = q as i128;
    proof {
        assert(ai * ni <= 1_000_000_000_000_000) by (nonlinear_arith)
            requires
                0 <= ai <= 10_000_000_000,
                0 <= ni <= 100_000,
        ;
    }
    let d: i128 = ai * ni - si;
    if d <= 0 {
        return false;
    }
    proof {
        assert(ni * qi <= 0x10_0000_0000_0000_0000_0000_0000) by (nonlinear_arith)
            requires
                0 <= ni <= 100_000,
                0 <= qi <= 100_000 * 10_000_000_000i128 * 10_000_000_000i128,
        ;
        assert(si * si <= 1_000_000_000_000_000i128 * 1_000_000_000_000_000i128) by (
        nonlinear_arith)
            requires
                0 <= si <= 1_000_000_000_000_000,
        ;
    }
    let v: i128 = ni * qi - si * si;
    proof {
        assert(d * d <= 1_000_000_000_000_000i128 * 1_000_000_000_000_000i128) by (
        nonlinear_arith)
            requires
                0 < d <= 1_000_000_000_000_000,
        ;
        let dd = d * d;
        assert(dd * (ni - 1) <= 1_000_000_000_000_000i128 * 1_000_000_000_000_000i128 * 100_000)
            by (nonlinear_arith)
            requires
                0 <= dd <= 1_000_000_000_000_000i128 * 1_000_000_000_000_000i128,
                0 <= ni - 1 <= 100_000,
        ;
        assert(dd * (ni - 1) >= 0) by (nonlinear_arith)
            requires
                0 <= dd,
                0 <= ni - 1,
        ;
        let bound: int = 0x10_0000_0000_0000_0000_0000_0000 + 1_000_000_000_000_000int
            * 1_000_000_000_000_000int;
        assert(4 * ni * v <= 4 * 100_000 * bound && 4 * ni * v >= -(4 * 100_000 * bound))
            by (nonlinear_arith)
            requires
                0 <= ni <= 100_000,
                -bound <= v <= bound,
                bound == 0x10_0000_0000_0000_0000_0000_0000 + 1_000_000_000_000_000int
                    * 1_000_000_000_000_000int,
        ;
    }
    let lhs: i128 = d * d * (ni - 1);
    let rhs: i128 = 4 * ni * v;
    lhs > rhs
}

/// Flags every debit transaction whose amount lies more than two sample
/// standard deviations above the batch mean; with fewer than two debits
/// or zero variance nothing is flagged.
pub fn detect_unusual_spending(transactions: &Vec<Transaction>) -> (r: Vec<FinancialInsight>)
    requires
        transactions@.len() <= MAX_ANALYSIS_ROWS,
        wf_transactions(transactions@),
    ensures
        r@.len() == flagged_txs(transactions@).len(),
        forall|k: int|
            0 <= k < r@.len() ==> anomaly_insight_matches(
                #[trigger] r@[k],
                flagged_txs(transactions@)[k],
            ),
{
    let ghost tsv = transactions@;
    let n: usize = transactions.len();
    // first pass: count, total and squared total of the debit amounts
    let mut count: u64 = 0;
    let mut total: u64 = 0;
    let mut sq: u128 = 0;
    let mut i: usize = 0;
    proof {
        assert(tsv.take(0) =~= Seq::<Transaction>::empty());
    }
    while i < n
        invariant
            0 <= i <= n,
            n == tsv.len(),
            tsv == transactions@,
            tsv.len() <= MAX_ANALYSIS_ROWS,
            wf_transactions(tsv),
            count == debit_count(tsv.take(i as int)),
            total == debit_total(tsv.take(i as int)),
            sq == debit_sq_total(tsv.take(i as int)),
            count <= i,
            total <= count * MAX_AMOUNT_CENTS,
            sq <= count * MAX_AMOUNT_CENTS * MAX_AMOUNT_CENTS,
        decreases n - i,
    {
        proof {
            assert(tsv.take(i + 1).drop_last() =~= tsv.take(i as int));
            assert(tsv.take(i + 1).last() == tsv[i as int]);
            assert(tsv[i as int].wf());
        }
        let t = &transactions[i];
        if matches!(t.transaction_type, TransactionType::Debit) {
            let a = t.amount_cents;
            proof {
                assert((a as u128) * (a as u128) <= 100_000_000_000_000_000_000u128) by (
                nonlinear_arith)
                    requires
                        0 <= a <= 10_000_000_000u64,
                ;
                assert(count < 100_000);
                assert(sq <= 100_000u128 * 10_000_000_000 * 10_000_000_000);
            }
            count = count + 1;
            total = total + a;
            let a2: u128 = (a as u128) * (a as u128);
            sq = sq + a2;
        }
        i = i + 1;
    }
    proof {
        assert(tsv.take(n as int) =~= tsv);
    }
    // second pass: flag the outliers
    let mut out: Vec<FinancialInsight> = Vec::new();
    let mut i: usize = 0;
    while i < n
        invariant
            0 <= i <= n,
            n == tsv.len(),
            tsv == transactions@,
            tsv.len() <= MAX_ANALYSIS_ROWS,
            wf_transactions(tsv),
            count == debit_count(tsv),
            total == debit_total(tsv),
            sq == debit_sq_total(tsv),
            count <= n,
            total <= count * MAX_AMOUNT_CENTS,
            sq <= count * MAX_AMOUNT_CENTS * MAX_AMOUNT_CENTS,
            out@.len() == flagged_prefix(tsv, i as int).len(),
            forall|k: int|
                0 <= k < out@.len() ==> anomaly_insight_matches(
                    #[trigger] out@[k],
                    flagged_prefix(tsv, i as int)[k],
                ),
        decreases n - i,
    {
        let t = &transactions[i];
        let mut hit = false;
        if matches!(t.transaction_type, TransactionType::Debit) {
            proof {
                assert(tsv[i as int].wf());
            }
            hit = anomaly_test(t.amount_cents, count, total, sq);
        }
        proof {
            assert(hit == anomaly_flagged(tsv, tsv[i as int]));
        }
        if hit {
            proof {
                reveal_strlit("Ongebruikelijk hoge uitgave gedetecteerd");
                reveal_strlit("De transactie '");
                reveal_strlit("' (");
                reveal_strlit(") is significant hoger dan uw gemiddelde uitgaven.");
                reveal_strlit("Controleer of deze uitgave correct is");
                reveal_strlit("Overweeg om dit soort uitgaven in de toekomst te plannen");
            }
            let title = lit_bytes("Ongebruikelijk hoge uitgave gedetecteerd");
            let mut description = lit_bytes("De transactie '");
            push_bytes(&mut description, t.description.as_slice());
            let mid = lit_bytes("' (");
            push_bytes(&mut description, mid.as_slice());
            let er = render_euro(t.amount_cents);
            push_bytes(&mut description, er.as_slice());
            let tail = lit_bytes(") is significant hoger dan uw gemiddelde uitgaven.");
            push_bytes(&mut description, tail.as_slice());
            let mut action_suggestions: Vec<Vec<u8>> = Vec::new();
            action_suggestions.push(lit_bytes("Controleer of deze uitgave correct is"));
            action_suggestions.push(
                lit_bytes("Overweeg om dit soort uitgaven in de toekomst te plannen"),
            );
            proof {
                assert(action_suggestions.deep_view() =~~= anomaly_suggestions());
                assert(description@ =~= ascii_bytes("De transactie '"@) + tsv[i as int].description@
                    + ascii_bytes("' ("@) + euro_render(tsv[i as int].amount_cents as int)
                    + ascii_bytes(") is significant hoger dan uw gemiddelde uitgaven."@));
            }
            out.push(
                FinancialInsight {
                    id: crate::outside::fresh_id(),
                    insight_type: InsightType::UnusualActivity,
                    title,
                    description,
                    impact: InsightImpact::Medium,
                    actionable: true,
                    action_suggestions,
                    confidence_percent: 70,
                    created_day: crate::outside::today_day_index(),
                },
            );
        }
        i = i + 1;
    }
    out
}

// ---------------------------------------------------------------------------
// Recurring-expense analyzer
// ---------------------------------------------------------------------------

/// Grouping key of a debit: lower-cased description and exact amount.
pub open spec fn group_key(t: Transaction) -> (Seq<u8>, u64) {
    (crate::text::to_lower(t.description@), t.amount_cents)
}

/// Distinct debit group keys among the first `upto` transactions, in
/// first-occurrence order.
pub open spec fn group_keys_prefix(ts: Seq<Transaction>, upto: int) -> Seq<(Seq<u8>, u64)>
    decreases upto,
{
    if upto <= 0 {
        seq![]
    } else {
        let rest = group_keys_prefix(ts, upto - 1);
        if is_debit(ts[upto - 1]) && !rest.contains(group_key(ts[upto - 1])) {
            rest.push(group_key(ts[upto - 1]))
        } else {
            rest
        }
    }
}

pub open spec fn group_keys(ts: Seq<Transaction>) -> Seq<(Seq<u8>, u64)> {
    group_keys_prefix(ts, ts.len() as int)
}

/// Number of debits carrying `key`.
pub open spec fn key_count(ts: Seq<Transaction>, key: (Seq<u8>, u64)) -> int
    decreases ts.len(),
{
    if ts.len() == 0 {
        0
    } else {
        key_count(ts.drop_last(), key) + (if is_debit(ts.last()) && group_key(ts.last()) == key {
            1int
        } else {
            0int
        })
    }
}

/// Total cents of the debits carrying `key`.
pub open spec fn key_total(ts: Seq<Transaction>, key: (Seq<u8>, u64)) -> int
    decreases ts.len(),
{
    if ts.len() == 0 {
        0
    } else {
        key_total(ts.drop_last(), key) + (if is_debit(ts.last()) && group_key(ts.last()) == key {
            ts.last().amount_cents as int
        } else {
            0int
        })
    }
}

proof fn lemma_key_count_nonneg(ts: Seq<Transaction>, key: (Seq<u8>, u64))
    ensures
        key_count(ts, key) >= 0,
    decreases ts.len(),
{
    if ts.len() > 0 {
        lemma_key_count_nonneg(ts.drop_last(), key);
    }
}

proof fn lemma_key_zero_total(ts: Seq<Transaction>, key: (Seq<u8>, u64))
    requires
        key_count(ts, key) == 0,
    ensures
        key_total(ts, key) == 0,
    decreases ts.len(),
{
    if ts.len() > 0 {
        lemma_key_count_nonneg(ts.drop_last(), key);
        lemma_key_zero_total(ts.drop_last(), key);
    }
}

/// The keys whose group occurs three or more times, in first-occurrence
/// order of the group.
pub open spec fn recurring_keys_from(ts: Seq<Transaction>, keys: Seq<(Seq<u8>, u64)>) -> Seq<
    (Seq<u8>, u64),
>
    decreases keys.len(),
{
    if keys.len() == 0 {
        seq![]
    } else {
        let rest = recurring_keys_from(ts, keys.drop_last());
        if key_count(ts, keys.last()) >= 3 {
            rest.push(keys.last())
        } else {
            rest
        }
    }
}

pub open spec fn recurring_keys(ts: Seq<Transaction>) -> Seq<(Seq<u8>, u64)> {
    recurring_keys_from(ts, group_keys(ts))
}

pub open spec fn recurring_suggestions() -> Seq<Seq<u8>> {
    seq![
        ascii_bytes("Overweeg om dit als een vaste last in te stellen"@),
        ascii_bytes("Zoek naar goedkopere alternatieven indien mogelijk"@),
    ]
}

/// The full content of one recurring-expense insight; the reported amount
/// is the group's average.
pub open spec fn recurring_insight_matches(
    ins: FinancialInsight,
    ts: Seq<Transaction>,
    key: (Seq<u8>, u64),
) -> bool {
    let cnt = key_count(ts, key);
    let avg = key_total(ts, key) / cnt;
    &&& ins.id@.len() == 36
    &&& ins.insight_type == InsightType::RecurringExpense
    &&& ins.title@ == ascii_bytes("Vaste uitgavepatroon gedetecteerd"@)
    &&& ins.description@ == ascii_bytes("U heeft een patroon van "@) + dec_spec(cnt)
        + ascii_bytes(" uitgaven van gemiddeld "@) + euro_render(avg) + ascii_bytes(
        " gedetecteerd."@,
    )
    &&& ins.impact == InsightImpact::Low
    &&& ins.actionable
    &&& ins.action_suggestions.deep_view() == recurring_suggestions()
    &&& ins.confidence_percent == 80
}

/// Groups debits by lower-cased description and exact amount and reports
/// every group of three or more as a recurring expense, with the group's
/// average amount.
#[verifier::rlimit(100)]
pub fn suggest_budget_optimizations(
    transactions: &Vec<Transaction>,
    _categories: &Vec<Category>,
    _budgets: &Vec<Budget>,
) -> (r: Vec<FinancialInsight>)
    requires
        transactions@.len() <= MAX_ANALYSIS_ROWS,
        wf_transactions(transactions@),
    ensures
        r@.len() == recurring_keys(transactions@).len(),
        forall|k: int|
            0 <= k < r@.len() ==> recurring_insight_matches(
                #[trigger] r@[k],
                transactions@,
                recurring_keys(transactions@)[k],
            ),
{
    let ghost tsv = transactions@;
    let n: usize = transactions.len();
    // group the debits: (lower-cased description, amount, count, total)
    let mut groups: Vec<(Vec<u8>, u64, u64, u64)> = Vec::new();
    let mut i: usize = 0;
    while i < n
        invariant
            0 <= i <= n,
            n == tsv.len(),
            tsv == transactions@,
            tsv.len() <= MAX_ANALYSIS_ROWS,
            wf_transactions(tsv),
            groups@.len() == group_keys_prefix(tsv, i as int).len(),
            forall|g: int|
                0 <= g < groups@.len() ==> (#[trigger] groups@[g].0)@ == group_keys_prefix(
                    tsv,
                    i as int,
                )[g].0 && groups@[g].1 == group_keys_prefix(tsv, i as int)[g].1,
            forall|g: int|
                0 <= g < groups@.len() ==> (#[trigger] groups@[g].2) as int == key_count(
                    tsv.take(i as int),
                    group_keys_prefix(tsv, i as int)[g],
                ),
            forall|g: int|
                0 <= g < groups@.len() ==> (#[trigger] groups@[g].3) as int == key_total(
                    tsv.take(i as int),
                    group_keys_prefix(tsv, i as int)[g],
                ),
            forall|g: int| 0 <= g < groups@.len() ==> (#[trigger] groups@[g].2) <= i,
            forall|g: int|
                0 <= g < groups@.len() ==> (#[trigger] groups@[g].3) <= i * MAX_AMOUNT_CENTS,
            forall|x: int, y: int|
                0 <= x < y < group_keys_prefix(tsv, i as int).len() ==> group_keys_prefix(
                    tsv,
                    i as int,
                )[x] != group_keys_prefix(tsv, i as int)[y],
            forall|k: (Seq<u8>, u64)|
                !group_keys_prefix(tsv, i as int).contains(k) ==> #[trigger] key_count(
                    tsv.take(i as int),
                    k,
                ) == 0,
        decreases n - i,
    {
        let ghost keys_i = group_keys_prefix(tsv, i as int);
        proof {
            assert(tsv.take(i + 1).drop_last() =~= tsv.take(i as int));
            assert(tsv.take(i + 1).last() == tsv[i as int]);
            assert(tsv[i as int].wf());
        }
        let t = &transactions[i];
        if matches!(t.transaction_type, TransactionType::Debit) {
            let lower = crate::text::lower_bytes(t.description.as_slice());
            let ghost key = group_key(tsv[i as int]);
            let ng: usize = groups.len();
            let mut g: usize = 0;
            let mut found = false;
            let mut at: usize = 0;
            while g < ng
                invariant
                    0 <= g <= ng,
                    ng == groups@.len(),
                    lower@ == key.0,
                    t.amount_cents == key.1,
                    forall|x: int|
                        0 <= x < groups@.len() ==> (#[trigger] groups@[x].0)@ == keys_i[x].0
                            && groups@[x].1 == keys_i[x].1,
                    keys_i.len() == groups@.len(),
                    !found ==> forall|x: int| 0 <= x < g ==> keys_i[x] != key,
                    found ==> at < g && keys_i[at as int] == key,
                decreases ng - g,
            {
                if !found {
                    if bytes_eq(groups[g].0.as_slice(), lower.as_slice()) && groups[g].1
                        == t.amount_cents {
                        proof {
                            assert(keys_i[g as int].0 == key.0 && keys_i[g as int].1 == key.1);
                            assert(keys_i[g as int] == key);
                        }
                        found = true;
                        at = g;
                    }
                }
                g = g + 1;
            }
            if found {
                proof {
                    assert(keys_i.contains(key)) by {
                        assert(keys_i[at as int] == key);
                    }
                    assert(group_keys_prefix(tsv, i + 1) == keys_i);
                }
                let entry_desc = vstd::slice::slice_to_vec(groups[at].0.as_slice());
                let entry = (entry_desc, groups[at].1, groups[at].2 + 1, groups[at].3
                    + t.amount_cents);
                groups.set(at, entry);
                proof {
                    assert forall|x: int| 0 <= x < groups@.len() implies ((
                    #[trigger] groups@[x].0)@ == keys_i[x].0 && groups@[x].1 == keys_i[x].1) by {
                        if x == at as int {
                            assert(groups@[x].0@ == keys_i[at as int].0);
                        }
                    }
                    assert forall|x: int| 0 <= x < groups@.len() implies ((
                    #[trigger] groups@[x].2) as int == key_count(tsv.take(i + 1), keys_i[x]) && (
                    groups@[x].3) as int == key_total(tsv.take(i + 1), keys_i[x])) by {
                        if x != at as int {
                            assert(keys_i[x] != key);
                        }
                    }
                }
            } else {
                proof {
                    assert(!keys_i.contains(key)) by {
                        if keys_i.contains(key) {
                            let x = choose|x: int|
                                0 <= x < keys_i.len() && keys_i[x] == key;
                            assert(false);
                        }
                    }
                    assert(group_keys_prefix(tsv, i + 1) == keys_i.push(key));
                    assert(forall|x: int| 0 <= x < keys_i.len() ==> keys_i[x] != key);
                    assert(key_count(tsv.take(i as int), key) == 0);
                    lemma_key_zero_total(tsv.take(i as int), key);
                    assert(key_count(tsv.take(i + 1), key) == 1);
                    assert(key_total(tsv.take(i + 1), key) == tsv[i as int].amount_cents);
                }
                groups.push((lower, t.amount_cents, 1, t.amount_cents));
                proof {
                    let keys2 = keys_i.push(key);
                    assert forall|x: int| 0 <= x < groups@.len() implies ((
                    #[trigger] groups@[x].2) as int == key_count(tsv.take(i + 1), keys2[x]) && (
                    groups@[x].3) as int == key_total(tsv.take(i + 1), keys2[x])) by {
                        if x < keys_i.len() {
                            assert(keys2[x] == keys_i[x]);
                            assert(keys_i[x] != key);
                        } else {
                            assert(keys2[x] == key);
                        }
                    }
                }
            }
        } else {
            proof {
                assert(group_keys_prefix(tsv, i + 1) == keys_i);
            }
        }
        proof {
            let keys_n = group_keys_prefix(tsv, i + 1);
            assert forall|k: (Seq<u8>, u64)|
                !keys_n.contains(k) implies key_count(tsv.take(i + 1), k) == 0 by {
                assert(!keys_i.contains(k)) by {
                    if keys_i.contains(k) {
                        let x = choose|x: int| 0 <= x < keys_i.len() && keys_i[x] == k;
                        assert(keys_n[x] == k);
                        assert(keys_n.contains(k));
                    }
                }
                assert(key_count(tsv.take(i as int), k) == 0);
                assert(tsv.take(i + 1).drop_last() =~= tsv.take(i as int));
                assert(tsv.take(i + 1).last() == tsv[i as int]);
                if is_debit(tsv[i as int]) {
                    let kk = group_key(tsv[i as int]);
                    assert(keys_n.contains(kk)) by {
                        if keys_i.contains(kk) {
                            let x = choose|x: int| 0 <= x < keys_i.len() && keys_i[x] == kk;
                            assert(keys_n[x] == kk);
                        } else {
                            assert(keys_n == keys_i.push(kk));
                            assert(keys_n[keys_n.len() - 1] == kk);
                        }
                    }
                    assert(k != kk);
                    assert(key_count(tsv.take(i + 1), k) == key_count(tsv.take(i as int), k));
                } else {
                    assert(key_count(tsv.take(i + 1), k) == key_count(tsv.take(i as int), k));
                }
            }
        }
        i = i + 1;
    }
    proof {
        assert(tsv.take(n as int) =~= tsv);
        assert(group_keys_prefix(tsv, n as int) == group_keys(tsv));
    }
    // report the groups of three or more
    let ng: usize = groups.len();
    let mut out: Vec<FinancialInsight> = Vec::new();
    let mut g: usize = 0;
    let ghost keys = group_keys(tsv);
    while g < ng
        invariant
            0 <= g <= ng,
            ng == groups@.len(),
            tsv == transactions@,
            keys == group_keys(tsv),
            keys.len() == ng,
            forall|x: int|
                0 <= x < ng ==> (#[trigger] groups@[x].0)@ == keys[x].0 && groups@[x].1
                    == keys[x].1,
            forall|x: int|
                0 <= x < ng ==> (#[trigger] groups@[x].2) as int == key_count(tsv, keys[x]),
            forall|x: int|
                0 <= x < ng ==> (#[trigger] groups@[x].3) as int == key_total(tsv, keys[x]),
            out@.len() == recurring_keys_from(tsv, keys.take(g as int)).len(),
            forall|k: int|
                0 <= k < out@.len() ==> recurring_insight_matches(
                    #[trigger] out@[k],
                    tsv,
                    recurring_keys_from(tsv, keys.take(g as int))[k],
                ),
        decreases ng - g,
    {
        proof {
            assert(keys.take(g + 1).drop_last() =~= keys.take(g as int));
            assert(keys.take(g + 1).last() == keys[g as int]);
        }
        if groups[g].2 >= 3 {
            proof {
                reveal_strlit("Vaste uitgavepatroon gedetecteerd");
                reveal_strlit("U heeft een patroon van ");
                reveal_strlit(" uitgaven van gemiddeld ");
                reveal_strlit(" gedetecteerd.");
                reveal_strlit("Overweeg om dit als een vaste last in te stellen");
                reveal_strlit("Zoek naar goedkopere alternatieven indien mogelijk");
            }
            let cnt = groups[g].2;
            let avg = groups[g].3 / cnt;
            let title = lit_bytes("Vaste uitgavepatroon gedetecteerd");
            let mut description = lit_bytes("U heeft een patroon van ");
            let cd = u64_to_dec(cnt);
            push_bytes(&mut description, cd.as_slice());
            let mid = lit_bytes(" uitgaven van gemiddeld ");
            push_bytes(&mut description, mid.as_slice());
            let er = render_euro(avg);
            push_bytes(&mut description, er.as_slice());
            let tail = lit_bytes(" gedetecteerd.");
            push_bytes(&mut description, tail.as_slice());
            let mut action_suggestions: Vec<Vec<u8>> = Vec::new();
            action_suggestions.push(lit_bytes("Overweeg om dit als een vaste last in te stellen"));
            action_suggestions.push(
                lit_bytes("Zoek naar goedkopere alternatieven indien mogelijk"),
            );
            proof {
                assert(action_suggestions.deep_view() =~~= recurring_suggestions());
                assert(description@ =~= ascii_bytes("U heeft een patroon van "@) + dec_spec(
                    cnt as int,
                ) + ascii_bytes(" uitgaven van gemiddeld "@) + euro_render(avg as int)
                    + ascii_bytes(" gedetecteerd."@));
            }
            out.push(
                FinancialInsight {
                    id: crate::outside::fresh_id(),
                    insight_type: InsightType::RecurringExpense,
                    title,
                    description,
                    impact: InsightImpact::Low,
                    actionable: true,
                    action_suggestions,
                    confidence_percent: 80,
                    created_day: crate::outside::today_day_index(),
                },
            );
        }
        g = g + 1;
    }
    proof {
        assert(keys.take(ng as int) =~= keys);
    }
    out
}

// ---------------------------------------------------------------------------
// Spending analysis over a day window
// ---------------------------------------------------------------------------

/// A transaction lies in the window of whole days `(lo, hi]`.
pub open spec fn in_window(t: Transaction, lo: int, hi: int) -> bool {
    lo < crate::date::day_index_spec(t.date) <= hi
}

/// Credit cents inside the window.
pub open spec fn window_income(ts: Seq<Transaction>, lo: int, hi: int) -> int
    decreases ts.len(),
{
    if ts.len() == 0 {
        0
    } else {
        window_income(ts.drop_last(), lo, hi) + (if is_credit(ts.last()) && in_window(
            ts.last(),
            lo,
            hi,
        ) {
            ts.last().amount_cents as int
        } else {
            0int
        })
    }
}

/// Debit cents inside the window.
pub open spec fn window_expense(ts: Seq<Transaction>, lo: int, hi: int) -> int
    decreases ts.len(),
{
    if ts.len() == 0 {
        0
    } else {
        window_expense(ts.drop_last(), lo, hi) + (if is_debit(ts.last()) && in_window(
            ts.last(),
            lo,
            hi,
        ) {
            ts.last().amount_cents as int
        } else {
            0int
        })
    }
}

/// Category bucket of a debit: its category id, or a fixed placeholder.
pub open spec fn cat_key(t: Transaction) -> Seq<u8> {
    match t.category_id {
        Some(c) => c@,
        None => ascii_bytes("uncategorized"@),
    }
}

/// Distinct category keys of windowed debits among the first `upto`
/// transactions, in first-occurrence order.
pub open spec fn cat_keys_prefix(ts: Seq<Transaction>, lo: int, hi: int, upto: int) -> Seq<
    Seq<u8>,
>
    decreases upto,
{
    if upto <= 0 {
        seq![]
    } else {
        let rest = cat_keys_prefix(ts, lo, hi, upto - 1);
        if is_debit(ts[upto - 1]) && in_window(ts[upto - 1], lo, hi) && !rest.contains(
            cat_key(ts[upto - 1]),
        ) {
            rest.push(cat_key(ts[upto - 1]))
        } else {
            rest
        }
    }
}

pub open spec fn cat_keys(ts: Seq<Transaction>, lo: int, hi: int) -> Seq<Seq<u8>> {
    cat_keys_prefix(ts, lo, hi, ts.len() as int)
}

/// Windowed debit cents on category `key`.
pub open spec fn cat_total(ts: Seq<Transaction>, lo: int, hi: int, key: Seq<u8>) -> int
    decreases ts.len(),
{
    if ts.len() == 0 {
        0
    } else {
        cat_total(ts.drop_last(), lo, hi, key) + (if is_debit(ts.last()) && in_window(
            ts.last(),
            lo,
            hi,
        ) && cat_key(ts.last()) == key {
            ts.last().amount_cents as int
        } else {
            0int
        })
    }
}

/// Number of windowed debits on category `key`.
pub open spec fn cat_count(ts: Seq<Transaction>, lo: int, hi: int, key: Seq<u8>) -> int
    decreases ts.len(),
{
    if ts.len() == 0 {
        0
    } else {
        cat_count(ts.drop_last(), lo, hi, key) + (if is_debit(ts.last()) && in_window(
            ts.last(),
            lo,
            hi,
        ) && cat_key(ts.last()) == key {
            1int
        } else {
            0int
        })
    }
}

proof fn lemma_cat_bounds(ts: Seq<Transaction>, lo: int, hi: int, key: Seq<u8>)
    ensures
        0 <= cat_total(ts, lo, hi, key) <= window_expense(ts, lo, hi),
        0 <= cat_count(ts, lo, hi, key) <= ts.len(),
    decreases ts.len(),
{
    if ts.len() > 0 {
        lemma_cat_bounds(ts.drop_last(), lo, hi, key);
    }
}

/// The per-category aggregates `(key, total, count)` in first-occurrence
/// order.
pub open spec fn cat_aggs(ts: Seq<Transaction>, lo: int, hi: int) -> Seq<(Seq<u8>, int, int)> {
    let keys = cat_keys(ts, lo, hi);
    Seq::new(
        keys.len(),
        |x: int| (keys[x], cat_total(ts, lo, hi, keys[x]), cat_count(ts, lo, hi, keys[x])),
    )
}

/// Inserts `x` into a list sorted by amount descending, after any equal
/// amounts (a stable insertion).
pub open spec fn insert_by_amount(s: Seq<(Seq<u8>, int, int)>, x: (Seq<u8>, int, int)) -> Seq<
    (Seq<u8>, int, int),
>
    decreases s.len(),
{
    if s.len() == 0 {
        seq![x]
    } else if s.first().1 >= x.1 {
        seq![s.first()] + insert_by_amount(s.drop_first(), x)
    } else {
        seq![x] + s
    }
}

/// Stable sort by amount descending.
pub open spec fn sort_aggs(s: Seq<(Seq<u8>, int, int)>) -> Seq<(Seq<u8>, int, int)>
    decreases s.len(),
{
    if s.len() == 0 {
        seq![]
    } else {
        insert_by_amount(sort_aggs(s.drop_last()), s.last())
    }
}

/// The ranked breakdown: the aggregates sorted by amount descending,
/// capped at the ten largest.
pub open spec fn top_aggs(ts: Seq<Transaction>, lo: int, hi: int) -> Seq<(Seq<u8>, int, int)> {
    let sorted = sort_aggs(cat_aggs(ts, lo, hi));
    if sorted.len() <= 10 {
        sorted
    } else {
        sorted.take(10)
    }
}

proof fn lemma_insert_at(s: Seq<(Seq<u8>, int, int)>, x: (Seq<u8>, int, int), p: int)
    requires
        0 <= p <= s.len(),
        forall|k: int| 0 <= k < p ==> (#[trigger] s[k]).1 >= x.1,
        p == s.len() || s[p].1 < x.1,
    ensures
        insert_by_amount(s, x) == s.take(p) + seq![x] + s.skip(p),
    decreases p,
{
    if p == 0 {
        if s.len() == 0 {
            assert(s.take(0) + seq![x] + s.skip(0) =~= seq![x]);
        } else {
            assert(s.take(0) + seq![x] + s.skip(0) =~= seq![x] + s);
        }
    } else {
        let t = s.drop_first();
        assert(forall|k: int| 0 <= k < p - 1 ==> (#[trigger] t[k]).1 >= x.1) by {
            assert(forall|k: int| 0 <= k < p - 1 ==> t[k] == s[k + 1]);
        }
        lemma_insert_at(t, x, p - 1);
        assert(seq![s.first()] + (t.take(p - 1) + seq![x] + t.skip(p - 1)) =~= s.take(p)
            + seq![x] + s.skip(p));
    }
}

/// The full content of a spending analysis over the window of
/// `period_days` whole days ending at `end_day`, compared with the
/// preceding window of equal length.
pub open spec fn analysis_matches(
    r: crate::models::SpendingAnalysis,
    ts: Seq<Transaction>,
    period_days: int,
    end_day: int,
) -> bool {
    let lo = end_day - period_days;
    let income = window_income(ts, lo, end_day);
    let expense = window_expense(ts, lo, end_day);
    let prev = window_expense(ts, lo - period_days, lo);
    let top = top_aggs(ts, lo, end_day);
    &&& r.total_income_cents == income
    &&& r.total_spending_cents == expense
    &&& r.net_savings_cents == income - expense
    &&& r.average_daily_spending_cents == (if period_days > 0 {
        expense / period_days
    } else {
        0int
    })
    &&& r.spending_trend == (if expense > prev {
        crate::models::TrendDirection::Increasing
    } else if expense < prev {
        crate::models::TrendDirection::Decreasing
    } else {
        crate::models::TrendDirection::Stable
    })
    &&& r.period_end_day == end_day
    &&& r.period_start_day == (if lo >= 0 {
        lo
    } else {
        0int
    })
    &&& r.top_categories@.len() == top.len()
    &&& forall|k: int|
        0 <= k < top.len() ==> {
            let c = #[trigger] r.top_categories@[k];
            &&& c.category_id@ == top[k].0
            &&& c.amount_cents == top[k].1
            &&& c.transaction_count == top[k].2
            &&& c.category_name@ == ascii_bytes("Category"@)
            &&& c.percentage_tenths == (if expense > 0 {
                top[k].1 * 1000 / expense
            } else {
                0int
            })
        }
}

/// Whether the transaction's date lies in `(lo, hi]`, both in day indexes.
fn in_window_exec(t: &Transaction, lo: i64, hi: i64) -> (r: bool)
    requires
        t.wf(),
    ensures
        r == in_window(*t, lo as int, hi as int),
{
    let d = t.date.day_number() as i64;
    lo < d && d <= hi
}

/// Computes the aggregate spending analysis over the `period_days` whole
/// days ending at day `end_day`: window totals, net savings, the ranked
/// per-category breakdown (ten largest), the average daily spend, and the
/// trend against the preceding window of equal length.
#[verifier::rlimit(100)]
pub fn spending_analysis_as_of(
    transactions: &Vec<Transaction>,
    period_days: u32,
    end_day: u32,
) -> (r: crate::models::SpendingAnalysis)
    requires
        transactions@.len() <= MAX_ANALYSIS_ROWS,
        wf_transactions(transactions@),
    ensures
        analysis_matches(r, transactions@, period_days as int, end_day as int),
{
    let ghost tsv = transactions@;
    let n: usize = transactions.len();
    let lo: i64 = end_day as i64 - period_days as i64;
    let lo2: i64 = lo - period_days as i64;
    let hi: i64 = end_day as i64;
    let mut income: u64 = 0;
    let mut expense: u64 = 0;
    let mut prev: u64 = 0;
    let mut groups: Vec<(Vec<u8>, u64, u64)> = Vec::new();
    let ghost glo = lo as int;
    let ghost ghi = hi as int;
    let mut i: usize = 0;
    proof {
        reveal_strlit("uncategorized");
    }
    while i < n
        invariant
            0 <= i <= n,
            n == tsv.len(),
            tsv == transactions@,
            tsv.len() <= MAX_ANALYSIS_ROWS,
            wf_transactions(tsv),
            glo == end_day - period_days,
            ghi == end_day,
            lo == glo,
            hi == ghi,
            lo2 == glo - period_days,
            income == window_income(tsv.take(i as int), glo, ghi),
            expense == window_expense(tsv.take(i as int), glo, ghi),
            prev == window_expense(tsv.take(i as int), glo - period_days, glo),
            income <= i * MAX_AMOUNT_CENTS,
            expense <= i * MAX_AMOUNT_CENTS,
            prev <= i * MAX_AMOUNT_CENTS,
            groups@.len() == cat_keys_prefix(tsv, glo, ghi, i as int).len(),
            forall|g: int|
                0 <= g < groups@.len() ==> (#[trigger] groups@[g].0)@ == cat_keys_prefix(
                    tsv,
                    glo,
                    ghi,
                    i as int,
                )[g],
            forall|g: int|
                0 <= g < groups@.len() ==> (#[trigger] groups@[g].1) as int == cat_total(
                    tsv.take(i as int),
                    glo,
                    ghi,
                    cat_keys_prefix(tsv, glo, ghi, i as int)[g],
                ),
            forall|g: int|
                0 <= g < groups@.len() ==> (#[trigger] groups@[g].2) as int == cat_count(
                    tsv.take(i as int),
                    glo,
                    ghi,
                    cat_keys_prefix(tsv, glo, ghi, i as int)[g],
                ),
            forall|g: int| 0 <= g < groups@.len() ==> (#[trigger] groups@[g].1) <= i
                * MAX_AMOUNT_CENTS,
            forall|g: int| 0 <= g < groups@.len() ==> (#[trigger] groups@[g].2) <= i,
            forall|x: int, y: int|
                0 <= x < y < cat_keys_prefix(tsv, glo, ghi, i as int).len() ==> cat_keys_prefix(
                    tsv,
                    glo,
                    ghi,
                    i as int,
                )[x] != cat_keys_prefix(tsv, glo, ghi, i as int)[y],
            forall|k: Seq<u8>|
                !cat_keys_prefix(tsv, glo, ghi, i as int).contains(k) ==> #[trigger] cat_count(
                    tsv.take(i as int),
                    glo,
                    ghi,
                    k,
                ) == 0 && cat_total(tsv.take(i as int), glo, ghi, k) == 0,
        decreases n - i,
    {
        let ghost keys_i = cat_keys_prefix(tsv, glo, ghi, i as int);
        proof {
            reveal_strlit("uncategorized");
            assert(tsv.take(i + 1).drop_last() =~= tsv.take(i as int));
            assert(tsv.take(i + 1).last() == tsv[i as int]);
            assert(tsv[i as int].wf());
        }
        let t = &transactions[i];
        let inside = in_window_exec(t, lo, hi);
        if matches!(t.transaction_type, TransactionType::Credit) && inside {
            income = income + t.amount_cents;
        }
        if matches!(t.transaction_type, TransactionType::Debit) && in_window_exec(t, lo2, lo) {
            prev = prev + t.amount_cents;
        }
        if matches!(t.transaction_type, TransactionType::Debit) && inside {
            expense = expense + t.amount_cents;
            // attribute to its category bucket
            let key: Vec<u8> = match &t.category_id {
                Some(c) => vstd::slice::slice_to_vec(c.as_slice()),
                None => lit_bytes("uncategorized"),
            };
            let ghost kk = cat_key(tsv[i as int]);
            let ng: usize = groups.len();
            let mut g: usize = 0;
            let mut found = false;
            let mut at: usize = 0;
            while g < ng
                invariant
                    0 <= g <= ng,
                    ng == groups@.len(),
                    key@ == kk,
                    forall|x: int|
                        0 <= x < groups@.len() ==> (#[trigger] groups@[x].0)@ == keys_i[x],
                    keys_i.len() == groups@.len(),
                    !found ==> forall|x: int| 0 <= x < g ==> keys_i[x] != kk,
                    found ==> at < g && keys_i[at as int] == kk,
                decreases ng - g,
            {
                if !found {
                    if bytes_eq(groups[g].0.as_slice(), key.as_slice()) {
                        proof {
                            assert(keys_i[g as int] == kk);
                        }
                        found = true;
                        at = g;
                    }
                }
                g = g + 1;
            }
            if found {
                proof {
                    assert(keys_i.contains(kk)) by {
                        assert(keys_i[at as int] == kk);
                    }
                    assert(cat_keys_prefix(tsv, glo, ghi, i + 1) == keys_i);
                }
                let entry_desc = vstd::slice::slice_to_vec(groups[at].0.as_slice());
                let entry = (entry_desc, groups[at].1 + t.amount_cents, groups[at].2 + 1);
                groups.set(at, entry);
                proof {
                    assert forall|x: int| 0 <= x < groups@.len() implies ((
                    #[trigger] groups@[x].1) as int == cat_total(tsv.take(i + 1), glo, ghi, keys_i[x])
                        && (groups@[x].2) as int == cat_count(
                        tsv.take(i + 1),
                        glo,
                        ghi,
                        keys_i[x],
                    )) by {
                        if x != at as int {
                            assert(keys_i[x] != kk);
                        }
                    }
                }
            } else {
                proof {
                    assert(!keys_i.contains(kk)) by {
                        if keys_i.contains(kk) {
                            let x = choose|x: int| 0 <= x < keys_i.len() && keys_i[x] == kk;
                            assert(false);
                        }
                    }
                    assert(cat_keys_prefix(tsv, glo, ghi, i + 1) == keys_i.push(kk));
                    assert(forall|x: int| 0 <= x < keys_i.len() ==> keys_i[x] != kk);
                    assert(cat_count(tsv.take(i as int), glo, ghi, kk) == 0);
                    assert(cat_total(tsv.take(i as int), glo, ghi, kk) == 0);
                }
                groups.push((key, t.amount_cents, 1));
                proof {
                    let keys2 = keys_i.push(kk);
                    assert forall|x: int| 0 <= x < groups@.len() implies ((
                    #[trigger] groups@[x].1) as int == cat_total(tsv.take(i + 1), glo, ghi, keys2[x])
                        && (groups@[x].2) as int == cat_count(
                        tsv.take(i + 1),
                        glo,
                        ghi,
                        keys2[x],
                    )) by {
                        if x < keys_i.len() {
                            assert(keys2[x] == keys_i[x]);
                            assert(keys_i[x] != kk);
                        } else {
                            assert(keys2[x] == kk);
                        }
                    }
                }
            }
        } else {
            proof {
                assert(cat_keys_prefix(tsv, glo, ghi, i + 1) == keys_i);
            }
        }
        proof {
            let keys_n = cat_keys_prefix(tsv, glo, ghi, i + 1);
            assert forall|k: Seq<u8>|
                !keys_n.contains(k) implies cat_count(tsv.take(i + 1), glo, ghi, k) == 0
                && cat_total(tsv.take(i + 1), glo, ghi, k) == 0 by {
                assert(!keys_i.contains(k)) by {
                    if keys_i.contains(k) {
                        let x = choose|x: int| 0 <= x < keys_i.len() && keys_i[x] == k;
                        assert(keys_n[x] == k);
                        assert(keys_n.contains(k));
                    }
                }
                assert(cat_count(tsv.take(i as int), glo, ghi, k) == 0);
                assert(tsv.take(i + 1).drop_last() =~= tsv.take(i as int));
                assert(tsv.take(i + 1).last() == tsv[i as int]);
                if is_debit(tsv[i as int]) && in_window(tsv[i as int], glo, ghi) {
                    let kk = cat_key(tsv[i as int]);
                    assert(keys_n.contains(kk)) by {
                        if keys_i.contains(kk) {
                            let x = choose|x: int| 0 <= x < keys_i.len() && keys_i[x] == kk;
                            assert(keys_n[x] == kk);
                        } else {
                            assert(keys_n == keys_i.push(kk));
                            assert(keys_n[keys_n.len() - 1] == kk);
                        }
                    }
                    assert(k != kk);
                }
            }
        }
        i = i + 1;
    }
    proof {
        assert(tsv.take(n as int) =~= tsv);
        assert(cat_keys_prefix(tsv, glo, ghi, n as int) == cat_keys(tsv, glo, ghi));
        assert forall|x: int|
            0 <= x < groups@.len() implies (#[trigger] groups@[x].1) <= expense && groups@[x].2
            <= 100_000 by {
            lemma_cat_bounds(tsv, glo, ghi, cat_keys(tsv, glo, ghi)[x]);
        }
    }
    // rank the buckets by amount, stably, largest first
    let ghost aggs = cat_aggs(tsv, glo, ghi);
    proof {
        assert(aggs.len() == groups@.len());
        assert(forall|x: int|
            0 <= x < groups@.len() ==> aggs[x] == ((#[trigger] groups@[x].0)@,
            groups@[x].1 as int, groups@[x].2 as int));
    }
    let ng: usize = groups.len();
    let mut sorted: Vec<(Vec<u8>, u64, u64)> = Vec::new();
    let mut g: usize = 0;
    proof {
        assert(aggs.take(0) =~= Seq::<(Seq<u8>, int, int)>::empty());
        assert(aggs_view(sorted@) =~= sort_aggs(aggs.take(0)));
    }
    while g < ng
        invariant
            0 <= g <= ng,
            ng == groups@.len(),
            aggs.len() == ng,
            forall|x: int|
                0 <= x < ng ==> aggs[x] == ((#[trigger] groups@[x].0)@, groups@[x].1 as int,
                groups@[x].2 as int),
            aggs_view(sorted@) == sort_aggs(aggs.take(g as int)),
            sorted@.len() == g,
            forall|x: int|
                0 <= x < ng ==> (#[trigger] groups@[x].1) <= expense && groups@[x].2 <= 100_000,
            forall|x: int|
                0 <= x < sorted@.len() ==> (#[trigger] sorted@[x].1) <= expense && sorted@[x].2
                    <= 100_000,
        decreases ng - g,
    {
        proof {
            assert(aggs.take(g + 1).drop_last() =~= aggs.take(g as int));
            assert(aggs.take(g + 1).last() == aggs[g as int]);
        }
        let item_desc = vstd::slice::slice_to_vec(groups[g].0.as_slice());
        let item = (item_desc, groups[g].1, groups[g].2);
        let ghost iv = aggs[g as int];
        let ghost before = aggs_view(sorted@);
        let sn: usize = sorted.len();
        let mut p: usize = 0;
        while p < sn && sorted[p].1 >= item.1
            invariant
                0 <= p <= sn,
                sn == sorted@.len(),
                iv.1 == item.1,
                before == aggs_view(sorted@),
                forall|k: int| 0 <= k < p ==> (#[trigger] before[k]).1 >= iv.1,
            decreases sn - p,
        {
            proof {
                assert(before[p as int] == (sorted@[p as int].0@, sorted@[p as int].1 as int,
                sorted@[p as int].2 as int));
            }
            p = p + 1;
        }
        proof {
            if p < sn {
                assert(before[p as int] == (sorted@[p as int].0@, sorted@[p as int].1 as int,
                sorted@[p as int].2 as int));
                assert(before[p as int].1 < iv.1);
            }
            lemma_insert_at(before, iv, p as int);
        }
        sorted.insert(p, item);
        proof {
            assert(aggs_view(sorted@) =~~= before.take(p as int) + seq![iv] + before.skip(
                p as int,
            ));
            assert(forall|x: int|
                0 <= x < sorted@.len() ==> (#[trigger] sorted@[x].1) <= expense && sorted@[x].2
                    <= 100_000);
        }
        g = g + 1;
    }
    proof {
        assert(aggs.take(ng as int) =~= aggs);
    }
    // keep the ten largest
    let ghost full_sorted = aggs_view(sorted@);
    sorted.truncate(10);
    proof {
        if full_sorted.len() > 10 {
            assert(aggs_view(sorted@) =~~= full_sorted.take(10));
        } else {
            assert(aggs_view(sorted@) =~~= full_sorted);
        }
        assert(aggs_view(sorted@) == top_aggs(tsv, glo, ghi));
        assert(forall|x: int|
            0 <= x < sorted@.len() ==> (#[trigger] sorted@[x].1) <= expense && sorted@[x].2
                <= 100_000);
    }
    // build the breakdown records
    proof {
        reveal_strlit("Category");
        lemma_debit_total_bound(tsv);
    }
    let ghost top = top_aggs(tsv, glo, ghi);
    let nt: usize = sorted.len();
    let mut top_categories: Vec<crate::models::CategorySpending> = Vec::new();
    let mut k: usize = 0;
    while k < nt
        invariant
            0 <= k <= nt,
            nt == sorted@.len(),
            top == aggs_view(sorted@),
            expense <= 100_000u64 * 10_000_000_000,
            top_categories@.len() == k,
            forall|x: int|
                0 <= x < k ==> {
                    let c = #[trigger] top_categories@[x];
                    &&& c.category_id@ == top[x].0
                    &&& c.amount_cents == top[x].1
                    &&& c.transaction_count == top[x].2
                    &&& c.category_name@ == ascii_bytes("Category"@)
                    &&& c.percentage_tenths == (if expense > 0 {
                        top[x].1 * 1000 / expense as int
                    } else {
                        0int
                    })
                },
            forall|x: int|
                0 <= x < nt ==> (#[trigger] sorted@[x].1) <= expense && sorted@[x].2 <= 100_000,
        decreases nt - k,
    {
        proof {
            reveal_strlit("Category");
            assert(aggs_view(sorted@)[k as int] == (sorted@[k as int].0@,
            sorted@[k as int].1 as int, sorted@[k as int].2 as int));
        }
        let amount = sorted[k].1;
        let cnt = sorted[k].2;
        let pct: u64 = if expense > 0 {
            proof {
                assert((amount as int) * 1000 / (expense as int) <= 1000) by (nonlinear_arith)
                    requires
                        0 < expense as int,
                        0 <= amount as int <= expense as int,
                ;
            }
            amount * 1000 / expense
        } else {
            0
        };
        top_categories.push(
            crate::models::CategorySpending {
                category_id: vstd::slice::slice_to_vec(sorted[k].0.as_slice()),
                category_name: lit_bytes("Category"),
                amount_cents: amount,
                transaction_count: cnt as u32,
                percentage_tenths: pct as u32,
            },
        );
        k = k + 1;
    }
    let net: i64 = income as i64 - expense as i64;
    let average_daily_spending_cents: u64 = if period_days > 0 {
        expense / (period_days as u64)
    } else {
        0
    };
    let spending_trend = if expense > prev {
        crate::models::TrendDirection::Increasing
    } else if expense < prev {
        crate::models::TrendDirection::Decreasing
    } else {
        crate::models::TrendDirection::Stable
    };
    let period_start_day: u32 = if lo >= 0 {
        lo as u32
    } else {
        0
    };
    crate::models::SpendingAnalysis {
        total_spending_cents: expense,
        total_income_cents: income,
        net_savings_cents: net,
        top_categories,
        average_daily_spending_cents,
        spending_trend,
        period_start_day,
        period_end_day: end_day,
    }
}

/// View of the aggregate rows.
pub open spec fn aggs_view(s: Seq<(Vec<u8>, u64, u64)>) -> Seq<(Seq<u8>, int, int)> {
    Seq::new(s.len(), |x: int| (s[x].0@, s[x].1 as int, s[x].2 as int))
}

// ---------------------------------------------------------------------------
// Engine
// ---------------------------------------------------------------------------

/// Stateless front of the four analyzers and the trend aggregate.
pub struct AIInsightEngine {}

impl AIInsightEngine {
    pub fn new() -> (r: Self) {
        AIInsightEngine {  }
    }

    /// Runs all four analyzers over the snapshot and concatenates their
    /// insights: the spending-pattern insight first, then the budget
    /// alerts, the unusual-activity flags, and the recurring expenses.
    pub fn generate_spending_insights(
        &self,
        transactions: &Vec<Transaction>,
        categories: &Vec<Category>,
        budgets: &Vec<Budget>,
    ) -> (r: Vec<FinancialInsight>)
        requires
            transactions@.len() <= MAX_ANALYSIS_ROWS,
            wf_transactions(transactions@),
            wf_budgets(budgets@),
        ensures
            ({
                let ts = transactions@;
                let n1: int = if pattern_emitted(ts) {
                    1int
                } else {
                    0int
                };
                let al = budget_alerts(ts, budgets@);
                let fl = flagged_txs(ts);
                let rk = recurring_keys(ts);
                &&& r@.len() == n1 + al.len() + fl.len() + rk.len()
                &&& (pattern_emitted(ts) ==> pattern_insight_matches(r@[0], ts))
                &&& forall|k: int|
                    0 <= k < al.len() ==> budget_insight_matches(#[trigger] r@[n1 + k], ts, al[k])
                &&& forall|k: int|
                    0 <= k < fl.len() ==> anomaly_insight_matches(
                        #[trigger] r@[n1 + al.len() + k],
                        fl[k],
                    )
                &&& forall|k: int|
                    0 <= k < rk.len() ==> recurring_insight_matches(
                        #[trigger] r@[n1 + al.len() + fl.len() + k],
                        ts,
                        rk[k],
                    )
            }),
    {
        let mut r = analyze_spending_patterns(transactions, categories);
        let mut v2 = analyze_budget_performance(transactions, categories, budgets);
        let mut v3 = detect_unusual_spending(transactions);
        let mut v4 = suggest_budget_optimizations(transactions, categories, budgets);
        let ghost s1 = r@;
        let ghost s2 = v2@;
        let ghost s3 = v3@;
        let ghost s4 = v4@;
        r.append(&mut v2);
        r.append(&mut v3);
        r.append(&mut v4);
        proof {
            assert(r@ == s1 + s2 + s3 + s4);
            assert(forall|k: int| 0 <= k < s2.len() ==> r@[s1.len() + k] == s2[k]);
            assert(forall|k: int| 0 <= k < s3.len() ==> r@[s1.len() + s2.len() + k] == s3[k]);
            assert(forall|k: int|
                0 <= k < s4.len() ==> r@[s1.len() + s2.len() + s3.len() + k] == s4[k]);
        }
        r
    }

    /// Computes the spending analysis for the `period_days` whole days
    /// ending today; the window end is the current UTC day.
    pub fn analyze_spending_trends(
        &self,
        transactions: &Vec<Transaction>,
        period_days: u32,
    ) -> (r: crate::models::SpendingAnalysis)
        requires
            transactions@.len() <= MAX_ANALYSIS_ROWS,
            wf_transactions(transactions@),
        ensures
            exists|end: int|
                0 <= end <= u32::MAX && analysis_matches(
                    r,
                    transactions@,
                    period_days as int,
                    end,
                ),
    {
        let end_day = crate::outside::today_day_index();
        let r = spending_analysis_as_of(transactions, period_days, end_day);
        proof {
            assert(analysis_matches(r, transactions@, period_days as int, end_day as int));
        }
        r
    }
}

impl Default for AIInsightEngine {
    fn default() -> (r: Self) {
        AIInsightEngine::new()
    }
}

} // verus!
