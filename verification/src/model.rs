//! The simulation driver: validate the configuration, then walk the
//! years in order. Within a year each category's flows are evaluated
//! month by month against the balance as it stood before the month, the
//! month's net amounts are applied as one sum, and the year's tax is
//! reconciled into a synthetic flow that the following year picks up.

use crate::asset::{assets_total, Category, CategoryName, CategoryValue, Money, Tx};
use crate::errors::{CategoryError, EvalError, ModelError, RunError};
use crate::flow::{applies_at_spec, transaction_spec, value_at_spec, Flow, FlowName, FlowValue};
use crate::tax::{adjustment_spec, tax_spec, AnnualTaxPolicy, TaxAdjustment, TaxPolicy, TaxSummary};
use crate::time::{Frequency, Month, Time, TimeNext, TimeRange, Year};
use vstd::prelude::*;

verus! {

/// The view of named transactions: each flow name with its transaction's
/// `(net amount, taxable income, tax withheld)`.
pub open spec fn tx_views(txs: Seq<(FlowName, Tx)>) -> Seq<(Seq<char>, (int, int, int))> {
    txs.map_values(
        |p: (FlowName, Tx)|
            (p.0.0@, (p.1.amount@, p.1.tax_tx.taxable_income@, p.1.tax_tx.tax_withheld@)),
    )
}

/// Insert a named transaction into a name-keyed list: a transaction
/// under the same name is replaced in place (the later flow wins), a new
/// name goes to the end.
pub open spec fn upsert(
    txs: Seq<(Seq<char>, (int, int, int))>,
    name: Seq<char>,
    tx: (int, int, int),
) -> Seq<(Seq<char>, (int, int, int))>
    decreases txs.len(),
{
    if txs.len() == 0 {
        seq![(name, tx)]
    } else if txs.first().0 == name {
        seq![(name, tx)] + txs.drop_first()
    } else {
        seq![txs.first()] + upsert(txs.drop_first(), name, tx)
    }
}

/// The transactions of one month: every flow that applies at `t`,
/// evaluated against the same starting balance, keyed by name with a
/// later same-named flow replacing an earlier one. Nothing when any
/// evaluation fails.
pub open spec fn month_txs(flows: Seq<Flow>, t: Time, balance: int) -> Option<
    Seq<(Seq<char>, (int, int, int))>,
>
    decreases flows.len(),
{
    if flows.len() == 0 {
        Some(Seq::empty())
    } else {
        match month_txs(flows.drop_last(), t, balance) {
            Some(txs) => if applies_at_spec(flows.last(), t) {
                match transaction_spec(flows.last(), t, balance) {
                    Some(tx) => Some(upsert(txs, flows.last().name.0@, tx)),
                    None => None,
                }
            } else {
                Some(txs)
            },
            None => None,
        }
    }
}

/// The sums of a month's transactions: `(net, taxable income, withheld)`.
pub open spec fn txs_totals(txs: Seq<(Seq<char>, (int, int, int))>) -> (int, int, int)
    decreases txs.len(),
{
    if txs.len() == 0 {
        (0, 0, 0)
    } else {
        let rest = txs_totals(txs.drop_last());
        let last = txs.last().1;
        (rest.0 + last.0, rest.1 + last.1, rest.2 + last.2)
    }
}

/// One month of one category: the month's transactions and the ending
/// balance, which is the starting balance plus the sum of the net
/// amounts. Nothing on an evaluation failure or when the ending balance
/// leaves the 64-bit range.
pub open spec fn month_step(flows: Seq<Flow>, t: Time, balance: int) -> Option<
    (Seq<(Seq<char>, (int, int, int))>, int),
> {
    match month_txs(flows, t, balance) {
        Some(txs) => {
            let nb = balance + txs_totals(txs).0;
            if i64::MIN <= nb <= i64::MAX {
                Some((txs, nb))
            } else {
                None
            }
        },
        None => None,
    }
}

/// The first `n` months of a category's year, as `(month index, ending
/// balance, transactions)` triples, plus the balance after them. Each
/// month starts from the previous month's ending balance.
pub open spec fn run_months(flows: Seq<Flow>, year: Year, balance: int, n: int) -> Option<
    (Seq<(int, int, Seq<(Seq<char>, (int, int, int))>)>, int),
>
    decreases n,
{
    if n <= 0 {
        Some((Seq::empty(), balance))
    } else {
        match run_months(flows, year, balance, n - 1) {
            Some((months, bal)) => {
                let t = Time { year, month: Month::from_idx(n - 1) };
                match month_step(flows, t, bal) {
                    Some((txs, nb)) => Some((months.push((n - 1, nb, txs)), nb)),
                    None => None,
                }
            },
            None => None,
        }
    }
}

/// A month that fails to evaluate fails the year.
proof fn lemma_month_txs_prefix_none(flows: Seq<Flow>, t: Time, balance: int, j: int)
    requires
        0 <= j <= flows.len(),
        month_txs(flows.take(j), t, balance) is None,
    ensures
        month_txs(flows, t, balance) is None,
    decreases flows.len() - j,
{
    if j < flows.len() {
        assert(flows.take(j + 1).drop_last() =~= flows.take(j));
        assert(flows.take(j + 1).last() == flows[j]);
        lemma_month_txs_prefix_none(flows, t, balance, j + 1);
    } else {
        assert(flows.take(j) =~= flows);
    }
}

/// A failing month fails every longer run of the year.
proof fn lemma_run_months_none(flows: Seq<Flow>, year: Year, balance: int, n1: int, n2: int)
    requires
        0 <= n1 <= n2,
        run_months(flows, year, balance, n1) is None,
    ensures
        run_months(flows, year, balance, n2) is None,
    decreases n2 - n1,
{
    if n1 < n2 {
        lemma_run_months_none(flows, year, balance, n1 + 1, n2);
    }
}

/// The name-keyed replacement happens at the first matching position.
proof fn lemma_upsert_found(
    s: Seq<(Seq<char>, (int, int, int))>,
    i: int,
    name: Seq<char>,
    tx: (int, int, int),
)
    requires
        0 <= i < s.len(),
        s[i].0 == name,
        forall|k: int| 0 <= k < i ==> (#[trigger] s[k]).0 != name,
    ensures
        upsert(s, name, tx) == s.update(i, (name, tx)),
    decreases i,
{
    if i == 0 {
        assert(s.first().0 == name);
        assert(seq![(name, tx)] + s.drop_first() =~= s.update(0, (name, tx)));
    } else {
        assert(s.drop_first()[i - 1].0 == name);
        assert(forall|k: int|
            0 <= k < i - 1 ==> (#[trigger] s.drop_first()[k]).0 == s[k + 1].0);
        lemma_upsert_found(s.drop_first(), i - 1, name, tx);
        assert(seq![s.first()] + s.drop_first().update(i - 1, (name, tx)) =~= s.update(
            i,
            (name, tx),
        ));
    }
}

/// A new name is appended at the end.
proof fn lemma_upsert_missing(
    s: Seq<(Seq<char>, (int, int, int))>,
    name: Seq<char>,
    tx: (int, int, int),
)
    requires
        forall|k: int| 0 <= k < s.len() ==> (#[trigger] s[k]).0 != name,
    ensures
        upsert(s, name, tx) == s.push((name, tx)),
    decreases s.len(),
{
    if s.len() == 0 {
        assert(seq![(name, tx)] =~= s.push((name, tx)));
    } else {
        assert(forall|k: int|
            0 <= k < s.drop_first().len() ==> (#[trigger] s.drop_first()[k]).0 == s[k + 1].0);
        lemma_upsert_missing(s.drop_first(), name, tx);
        assert(seq![s.first()] + s.drop_first().push((name, tx)) =~= s.push((name, tx)));
    }
}

/// One month's ending balance and the transactions behind it.
#[derive(Debug, Clone)]
pub struct MonthlyReport {
    pub value: Money,
    pub transactions: Vec<(FlowName, Tx)>,
}

/// The math view of a list of monthly reports.
pub open spec fn months_view(ms: Seq<(Month, MonthlyReport)>) -> Seq<
    (int, int, Seq<(Seq<char>, (int, int, int))>),
> {
    ms.map_values(|p: (Month, MonthlyReport)| (p.0.idx(), p.1.value@, tx_views(p.1.transactions@)))
}

/// One category simulated over a year.
pub struct CategoryModel<'a> {
    pub flows: &'a Vec<Flow>,
}

impl<'a> CategoryModel<'a> {
    /// Add a named transaction to a month's list: replace the entry with
    /// the same name in place, or append a new one.
    fn upsert_tx(txs: &mut Vec<(FlowName, Tx)>, name: &FlowName, tx: Tx)
        ensures
            tx_views(final(txs)@) == upsert(
                tx_views(old(txs)@),
                name.0@,
                (tx.amount@, tx.tax_tx.taxable_income@, tx.tax_tx.tax_withheld@),
            ),
    {
        let ghost v = tx_views(txs@);
        let ghost txv = (tx.amount@, tx.tax_tx.taxable_income@, tx.tax_tx.tax_withheld@);
        let mut i: usize = 0;
        while i < txs.len()
            invariant
                0 <= i <= txs@.len(),
                txs@ == old(txs)@,
                v == tx_views(txs@),
                txv == (tx.amount@, tx.tax_tx.taxable_income@, tx.tax_tx.tax_withheld@),
                forall|k: int| 0 <= k < i ==> (#[trigger] txs@[k]).0.0@ != name.0@,
            decreases txs@.len() - i,
        {
            if txs[i].0.0 == name.0 {
                let named = FlowName(name.0.clone());
                txs.remove(i);
                txs.insert(i, (named, tx));
                proof {
                    assert(v[i as int].0 == name.0@);
                    assert(forall|k: int| 0 <= k < i ==> (#[trigger] v[k]).0 != name.0@);
                    lemma_upsert_found(v, i as int, name.0@, txv);
                    assert(final(txs)@ =~= old(txs)@.update(i as int, final(txs)@[i as int]));
                    assert(tx_views(final(txs)@) =~= v.update(i as int, (name.0@, txv)));
                }
                return ;
            }
            i = i + 1;
        }
        txs.push((FlowName(name.0.clone()), tx));
        proof {
            assert(forall|k: int| 0 <= k < v.len() ==> (#[trigger] v[k]).0 != name.0@);
            lemma_upsert_missing(v, name.0@, txv);
            assert(tx_views(final(txs)@) =~= v.push((name.0@, txv)));
        }
    }

    /// Run this category through the twelve months of `year`, updating
    /// its running balance: per month, every applicable flow is evaluated
    /// against the balance as it stood before the month, and the sum of
    /// the month's net amounts is applied once. The reports are exactly
    /// [`run_months`] of the starting balance; a failed evaluation or an
    /// out-of-range balance aborts, naming the month and — when a single
    /// flow's evaluation was at fault — that flow.
    pub fn run<'b>(&self, category_value: &mut CategoryValue<'b>, year: Year) -> (r: Result<
        Vec<(Month, MonthlyReport)>,
        CategoryError,
    >)
        requires
            year.0 < u32::MAX,
        ensures
            r is Ok <==> run_months(self.flows@, year, old(category_value).1@, 12) is Some,
            r matches Ok(ms) ==> {
                &&& final(category_value).0 == old(category_value).0
                &&& run_months(self.flows@, year, old(category_value).1@, 12) matches Some(sp)
                    && months_view(ms@) == sp.0 && final(category_value).1@ == sp.1
            },
            r matches Err(e) ==> {
                &&& run_months(self.flows@, year, old(category_value).1@, e.month.idx()) is Some
                &&& run_months(self.flows@, year, old(category_value).1@, e.month.idx() + 1)
                    is None
                &&& (match e.flow {
                    Some(nm) => match run_months(
                        self.flows@,
                        year,
                        old(category_value).1@,
                        e.month.idx(),
                    ) {
                        Some(pre) => exists|fj: int|
                            0 <= fj < self.flows@.len() && (#[trigger] self.flows@[fj]).name.0@
                                == nm.0@ && applies_at_spec(
                                self.flows@[fj],
                                Time { year, month: e.month },
                            ) && transaction_spec(
                                self.flows@[fj],
                                Time { year, month: e.month },
                                pre.1,
                            ) is None,
                        None => false,
                    },
                    None => e.error == EvalError::Overflow,
                })
            },
            final(category_value).0 == old(category_value).0,
    {
        let months = year.months();
        let mut out: Vec<(Month, MonthlyReport)> = Vec::new();
        proof {
            assert(months_view(out@) =~= Seq::empty());
        }
        let mut m: usize = 0;
        while m < 12
            invariant
                0 <= m <= 12,
                year.0 < u32::MAX,
                months@.len() == 12,
                forall|i: int|
                    0 <= i < 12 ==> #[trigger] months@[i] == (Time {
                        year,
                        month: Month::from_idx(i),
                    }),
                category_value.0 == old(category_value).0,
                run_months(self.flows@, year, old(category_value).1@, m as int) == Some(
                    (months_view(out@), category_value.1@),
                ),
            decreases 12 - m,
        {
            let t = months[m];
            let ghost balance = category_value.1@;
            let mut txs: Vec<(FlowName, Tx)> = Vec::new();
            proof {
                assert(self.flows@.take(0) =~= Seq::empty());
                assert(tx_views(txs@) =~= Seq::empty());
            }
            let mut j: usize = 0;
            while j < self.flows.len()
                invariant
                    0 <= j <= self.flows@.len(),
                    0 <= m < 12,
                    year.0 < u32::MAX,
                    t == (Time { year, month: Month::from_idx(m as int) }),
                    balance == category_value.1@,
                    category_value.0 == old(category_value).0,
                    run_months(self.flows@, year, old(category_value).1@, m as int) == Some(
                        (months_view(out@), category_value.1@),
                    ),
                    month_txs(self.flows@.take(j as int), t, balance) == Some(tx_views(txs@)),
                decreases self.flows@.len() - j,
            {
                let f = &self.flows[j];
                proof {
                    assert(self.flows@.take(j as int + 1).drop_last() =~= self.flows@.take(
                        j as int,
                    ));
                    assert(self.flows@.take(j as int + 1).last() == self.flows@[j as int]);
                }
                if f.value.applies_at(&t, f) {
                    match f.calculate_transaction(category_value, &t) {
                        Ok(tx) => {
                            Self::upsert_tx(&mut txs, &f.name, tx);
                        },
                        Err(e) => {
                            proof {
                                lemma_month_txs_prefix_none(self.flows@, t, balance, j + 1);
                                lemma_run_months_none(
                                    self.flows@,
                                    year,
                                    old(category_value).1@,
                                    m as int + 1,
                                    12,
                                );
                                assert(Month::from_idx(m as int).idx() == m as int);
                                assert(Time { year, month: t.month } == t);
                            }
                            return Err(
                                CategoryError {
                                    month: t.month,
                                    flow: Some(FlowName(f.name.0.clone())),
                                    error: e,
                                },
                            );
                        },
                    }
                }
                j = j + 1;
            }
            proof {
                assert(self.flows@.take(self.flows@.len() as int) =~= self.flows@);
            }
            // all of the month's transactions are applied as one sum
            let mut total: i128 = 0;
            let mut k: usize = 0;
            while k < txs.len()
                invariant
                    0 <= k <= txs@.len(),
                    total == txs_totals(tx_views(txs@).take(k as int)).0,
                    -(k as int) * 0x8000000000000000 <= total <= (k as int) * 0x8000000000000000,
                decreases txs@.len() - k,
            {
                proof {
                    assert(tx_views(txs@).take(k as int + 1).drop_last() =~= tx_views(
                        txs@,
                    ).take(k as int));
                    assert(tx_views(txs@).take(k as int + 1).last() == tx_views(txs@)[k as int]);
                }
                total = total + txs[k].1.amount.as_cents() as i128;
                k = k + 1;
            }
            proof {
                assert(tx_views(txs@).take(txs@.len() as int) =~= tx_views(txs@));
            }
            let nb128 = category_value.1.as_cents() as i128 + total;
            if nb128 < i64::MIN as i128 || nb128 > i64::MAX as i128 {
                proof {
                    lemma_run_months_none(
                        self.flows@,
                        year,
                        old(category_value).1@,
                        m as int + 1,
                        12,
                    );
                    assert(Month::from_idx(m as int).idx() == m as int);
                }
                return Err(
                    CategoryError { month: t.month, flow: None, error: EvalError::Overflow },
                );
            }
            let ghost txs_view = tx_views(txs@);
            let ghost prev = out@;
            let nb = Money::from_cents(nb128 as i64);
            category_value.1 = nb;
            out.push((t.month, MonthlyReport { value: nb, transactions: txs }));
            proof {
                assert(Month::from_idx(m as int).idx() == m as int);
                assert(months_view(out@) =~= months_view(prev).push((m as int, nb@, txs_view)));
            }
            m = m + 1;
        }
        Ok(out)
    }
}

/// The views of a list of balances, in cents.
pub open spec fn balances_view(b: Seq<Money>) -> Seq<int> {
    b.map_values(|m: Money| m@)
}

/// The views of the flow map: each category name with its flows.
pub open spec fn flows_view(v: Seq<(CategoryName, Vec<Flow>)>) -> Seq<(CategoryName, Seq<Flow>)> {
    v.map_values(|p: (CategoryName, Vec<Flow>)| (p.0, p.1@))
}

/// The view of the per-category year summaries.
pub open spec fn summaries_view(s: Seq<(CategoryName, Vec<(Month, MonthlyReport)>)>) -> Seq<
    (Seq<char>, Seq<(int, int, Seq<(Seq<char>, (int, int, int))>)>),
> {
    s.map_values(|p: (CategoryName, Vec<(Month, MonthlyReport)>)| (p.0.0@, months_view(p.1@)))
}

/// The names of the configured categories.
pub open spec fn category_names(cs: Seq<Category>) -> Seq<Seq<char>> {
    cs.map_values(|c: Category| c.name.0@)
}

/// Whether a name is among the given names.
pub open spec fn has_name(names: Seq<Seq<char>>, n: Seq<char>) -> bool {
    exists|i: int| 0 <= i < names.len() && names[i] == n
}

/// A model's configuration is valid when the tax category and every
/// category that keys a flow list are configured categories, and no
/// category keys two flow lists (a duplicate's flows would otherwise be
/// silently shadowed by the first entry).
pub open spec fn model_valid(
    categories: Seq<Category>,
    flows: Seq<(CategoryName, Seq<Flow>)>,
    tax_category: CategoryName,
) -> bool {
    &&& has_name(category_names(categories), tax_category.0@)
    &&& forall|i: int|
        0 <= i < flows.len() ==> has_name(category_names(categories), (#[trigger] flows[i]).0.0@)
    &&& forall|i: int, j: int|
        0 <= i < j < flows.len() ==> (#[trigger] flows[i]).0.0@ != (#[trigger] flows[j]).0.0@
}

/// The flow list registered under a name, if any (first match).
pub open spec fn flows_for(flows: Seq<(CategoryName, Seq<Flow>)>, name: Seq<char>) -> Option<
    Seq<Flow>,
>
    decreases flows.len(),
{
    if flows.len() == 0 {
        None
    } else if flows.first().0.0@ == name {
        Some(flows.first().1)
    } else {
        flows_for(flows.drop_first(), name)
    }
}

/// Three running totals `(net, taxable income, withheld)` extended by a
/// transaction's triple, or nothing when a total leaves the 64-bit range.
pub open spec fn add3(sums: (int, int, int), a: (int, int, int)) -> Option<(int, int, int)> {
    let s = (sums.0 + a.0, sums.1 + a.1, sums.2 + a.2);
    if i64::MIN <= s.0 <= i64::MAX && i64::MIN <= s.1 <= i64::MAX && i64::MIN <= s.2
        <= i64::MAX {
        Some(s)
    } else {
        None
    }
}

/// A month's transactions folded into the year's tax totals, in order.
pub open spec fn fold_txs_tax(txs: Seq<(Seq<char>, (int, int, int))>, sums: (int, int, int)) -> Option<
    (int, int, int),
>
    decreases txs.len(),
{
    if txs.len() == 0 {
        Some(sums)
    } else {
        match fold_txs_tax(txs.drop_last(), sums) {
            Some(s) => add3(s, txs.last().1),
            None => None,
        }
    }
}

/// A category-year's months folded into the year's tax totals, in order.
pub open spec fn fold_months_tax(
    months: Seq<(int, int, Seq<(Seq<char>, (int, int, int))>)>,
    sums: (int, int, int),
) -> Option<(int, int, int)>
    decreases months.len(),
{
    if months.len() == 0 {
        Some(sums)
    } else {
        match fold_months_tax(months.drop_last(), sums) {
            Some(s) => fold_txs_tax(months.last().2, s),
            None => None,
        }
    }
}

/// The first `n` categories of a year: for each category with flows, its
/// twelve months are run from its previous balance and its transactions
/// feed the tax totals; a category without flows keeps its balance and
/// appears in no summary. Yields the summaries, the new balances of the
/// processed categories, and the tax totals.
pub open spec fn run_cats(
    categories: Seq<Category>,
    flows: Seq<(CategoryName, Seq<Flow>)>,
    year: Year,
    balances: Seq<int>,
    n: int,
) -> Option<
    (
        Seq<(Seq<char>, Seq<(int, int, Seq<(Seq<char>, (int, int, int))>)>)>,
        Seq<int>,
        (int, int, int),
    ),
>
    decreases n,
{
    if n <= 0 {
        Some((Seq::empty(), Seq::empty(), (0, 0, 0)))
    } else {
        match run_cats(categories, flows, year, balances, n - 1) {
            Some((summ, nbs, sums)) => {
                let name = categories[n - 1].name.0@;
                match flows_for(flows, name) {
                    None => Some((summ, nbs.push(balances[n - 1]), sums)),
                    Some(fl) => match run_months(fl, year, balances[n - 1], 12) {
                        Some((months, nb)) => match fold_months_tax(months, sums) {
                            Some(s2) => Some((summ.push((name, months)), nbs.push(nb), s2)),
                            None => None,
                        },
                        None => None,
                    },
                }
            },
            None => None,
        }
    }
}

/// A failing category fails every longer run of the year.
proof fn lemma_run_cats_none(
    categories: Seq<Category>,
    flows: Seq<(CategoryName, Seq<Flow>)>,
    year: Year,
    balances: Seq<int>,
    n1: int,
    n2: int,
)
    requires
        0 <= n1 <= n2,
        run_cats(categories, flows, year, balances, n1) is None,
    ensures
        run_cats(categories, flows, year, balances, n2) is None,
    decreases n2 - n1,
{
    if n1 < n2 {
        lemma_run_cats_none(categories, flows, year, balances, n1 + 1, n2);
    }
}

/// A failing transaction fold fails the whole month's fold.
proof fn lemma_fold_txs_none(txs: Seq<(Seq<char>, (int, int, int))>, sums: (int, int, int), j: int)
    requires
        0 <= j <= txs.len(),
        fold_txs_tax(txs.take(j), sums) is None,
    ensures
        fold_txs_tax(txs, sums) is None,
    decreases txs.len() - j,
{
    if j < txs.len() {
        assert(txs.take(j + 1).drop_last() =~= txs.take(j));
        lemma_fold_txs_none(txs, sums, j + 1);
    } else {
        assert(txs.take(j) =~= txs);
    }
}

/// A failing month fold fails the whole year's fold.
proof fn lemma_fold_months_none(
    months: Seq<(int, int, Seq<(Seq<char>, (int, int, int))>)>,
    sums: (int, int, int),
    j: int,
)
    requires
        0 <= j <= months.len(),
        fold_months_tax(months.take(j), sums) is None,
    ensures
        fold_months_tax(months, sums) is None,
    decreases months.len() - j,
{
    if j < months.len() {
        assert(months.take(j + 1).drop_last() =~= months.take(j));
        lemma_fold_months_none(months, sums, j + 1);
    } else {
        assert(months.take(j) =~= months);
    }
}

/// The shape of the synthetic reconciliation flow for a year: named
/// "Tax adjustment", a single April occurrence in the following year,
/// tax-exempt, carrying the year's delta as a fixed amount.
pub open spec fn synthetic_flow_ok(f: Flow, year: Year, delta: int) -> bool {
    &&& f.name.0@ == "Tax adjustment"@
    &&& f.start == (Time { year: Year((year.0 + 1) as u32), month: Month::April })
    &&& f.end == (Time { year: Year((year.0 + 1) as u32), month: Month::May })
    &&& f.frequency == Frequency::Monthly
    &&& (f.value matches FlowValue::Fixed(ff) && ff.value@ == delta)
    &&& f.tax_policy is TaxExempt
}

/// The flow map with one flow appended under a name: added to the first
/// entry with that name, or as a new entry at the end.
pub open spec fn append_flow(
    flows: Seq<(CategoryName, Seq<Flow>)>,
    name: CategoryName,
    f: Flow,
) -> Seq<(CategoryName, Seq<Flow>)>
    decreases flows.len(),
{
    if flows.len() == 0 {
        seq![(name, seq![f])]
    } else if flows.first().0.0@ == name.0@ {
        seq![(flows.first().0, flows.first().1.push(f))] + flows.drop_first()
    } else {
        seq![flows.first()] + append_flow(flows.drop_first(), name, f)
    }
}

/// The view of one yearly report: its per-category summaries, tax totals
/// and adjustment.
pub open spec fn yearly_view(r: YearlyReport) -> (
    Seq<(Seq<char>, Seq<(int, int, Seq<(Seq<char>, (int, int, int))>)>)>,
    (int, int, int),
    (int, int, int, int),
) {
    (
        summaries_view(r.category_summary@),
        (r.tax_summary.net_amount@, r.tax_summary.taxable_income@, r.tax_summary.tax_withheld@),
        (
            r.tax_adjustment.owed@,
            r.tax_adjustment.withheld@,
            r.tax_adjustment.delta@,
            r.tax_adjustment.effective_rate@,
        ),
    )
}

/// The views of the whole report's years.
pub open spec fn years_view(ys: Seq<(Year, YearlyReport)>) -> Seq<
    (
        Seq<(Seq<char>, Seq<(int, int, Seq<(Seq<char>, (int, int, int))>)>)>,
        (int, int, int),
        (int, int, int, int),
    ),
> {
    ys.map_values(|p: (Year, YearlyReport)| yearly_view(p.1))
}

/// The first `n` years of a run, starting at `start`, each year fed by
/// the balances and flow map the previous year left behind: each year's
/// categories are run, its tax totals reconciled, and `injected[k]` (the
/// synthetic flow built from year `k`'s outcome) appended to the tax
/// category's flows for the following years. Yields the per-year views,
/// the final balances and the final flow map.
pub open spec fn run_years_spec(
    categories: Seq<Category>,
    flows: Seq<(CategoryName, Seq<Flow>)>,
    policy: AnnualTaxPolicy,
    tax_category: CategoryName,
    start: int,
    n: int,
    balances: Seq<int>,
    injected: Seq<Flow>,
) -> Option<
    (
        Seq<
            (
                Seq<(Seq<char>, Seq<(int, int, Seq<(Seq<char>, (int, int, int))>)>)>,
                (int, int, int),
                (int, int, int, int),
            ),
        >,
        Seq<int>,
        Seq<(CategoryName, Seq<Flow>)>,
    ),
>
    decreases n,
{
    if n <= 0 {
        Some((Seq::empty(), balances, flows))
    } else {
        match run_years_spec(
            categories,
            flows,
            policy,
            tax_category,
            start,
            n - 1,
            balances,
            injected,
        ) {
            Some((yrs, bals, fls)) => {
                let y = Year((start + n - 1) as u32);
                match run_cats(categories, fls, y, bals, categories.len() as int) {
                    Some((summ, nbs, sums)) => match adjustment_spec(policy, sums.1, sums.2) {
                        Some(adj) => Some(
                            (
                                yrs.push((summ, sums, adj)),
                                nbs,
                                append_flow(fls, tax_category, injected[n - 1]),
                            ),
                        ),
                        None => None,
                    },
                    None => None,
                }
            },
            None => None,
        }
    }
}

/// Whether a witness list of synthetic flows is accepted by the run it
/// induces: the specification succeeds for it, and each witness has the
/// shape of the reconciliation flow of its own year's outcome.
pub open spec fn conforming(
    categories: Seq<Category>,
    flows: Seq<(CategoryName, Seq<Flow>)>,
    policy: AnnualTaxPolicy,
    tax_category: CategoryName,
    start: int,
    n: int,
    balances: Seq<int>,
    injected: Seq<Flow>,
) -> bool {
    match run_years_spec(categories, flows, policy, tax_category, start, n, balances, injected) {
        Some(out) => forall|k: int|
            0 <= k < n ==> synthetic_flow_ok(
                #[trigger] injected[k],
                Year((start + k) as u32),
                out.0[k].2.2,
            ),
        None => false,
    }
}

/// Two withholding policies are interchangeable for evaluation: equal, or
/// both the (field-free) exempt policy.
pub open spec fn policy_equiv(x: TaxPolicy, y: TaxPolicy) -> bool {
    x == y || (x is TaxExempt && y is TaxExempt)
}

/// Two valuation policies are interchangeable for evaluation: equal, or
/// fixed amounts worth the same cents.
pub open spec fn value_equiv(x: FlowValue, y: FlowValue) -> bool {
    match (x, y) {
        (FlowValue::Fixed(a), FlowValue::Fixed(b)) => a.value@ == b.value@,
        _ => x == y,
    }
}

/// Two flows are interchangeable for evaluation: they agree on everything
/// the simulation reads — the name's characters, the window, the
/// frequency and the policies — leaving only the description and the
/// identity of the strings free.
pub open spec fn flow_equiv(a: Flow, b: Flow) -> bool {
    &&& a.name.0@ == b.name.0@
    &&& a.start == b.start
    &&& a.end == b.end
    &&& a.frequency == b.frequency
    &&& policy_equiv(a.tax_policy, b.tax_policy)
    &&& value_equiv(a.value, b.value)
}

/// Pointwise interchangeable flow lists.
pub open spec fn flows_equiv(a: Seq<Flow>, b: Seq<Flow>) -> bool {
    &&& a.len() == b.len()
    &&& forall|i: int| 0 <= i < a.len() ==> flow_equiv(#[trigger] a[i], #[trigger] b[i])
}

/// Flow maps with the same category keys and interchangeable flow lists.
pub open spec fn maps_equiv(
    a: Seq<(CategoryName, Seq<Flow>)>,
    b: Seq<(CategoryName, Seq<Flow>)>,
) -> bool {
    &&& a.len() == b.len()
    &&& forall|i: int|
        0 <= i < a.len() ==> (#[trigger] a[i]).0 == (#[trigger] b[i]).0 && flows_equiv(
            a[i].1,
            b[i].1,
        )
}

/// Interchangeable policies withhold identically.
proof fn lemma_tax_spec_equiv(x: TaxPolicy, y: TaxPolicy, gross: int)
    requires
        policy_equiv(x, y),
    ensures
        tax_spec(x, gross) == tax_spec(y, gross),
{
}

/// Interchangeable valuation policies yield the same gross amounts.
proof fn lemma_value_at_equiv(x: FlowValue, y: FlowValue, t: Time, bal: int)
    requires
        value_equiv(x, y),
    ensures
        value_at_spec(x, t, bal) == value_at_spec(y, t, bal),
{
}

/// Interchangeable flows occur at the same times and produce the same
/// transactions.
proof fn lemma_flow_eval_equiv(a: Flow, b: Flow, t: Time, bal: int)
    requires
        flow_equiv(a, b),
    ensures
        applies_at_spec(a, t) == applies_at_spec(b, t),
        transaction_spec(a, t, bal) == transaction_spec(b, t, bal),
{
    lemma_value_at_equiv(a.value, b.value, t, bal);
    match value_at_spec(a.value, t, bal) {
        Some(g) => {
            lemma_tax_spec_equiv(a.tax_policy, b.tax_policy, g);
        },
        None => {
        },
    }
}

/// Interchangeable flow lists produce the same month.
proof fn lemma_month_txs_equiv(a: Seq<Flow>, b: Seq<Flow>, t: Time, bal: int)
    requires
        flows_equiv(a, b),
    ensures
        month_txs(a, t, bal) == month_txs(b, t, bal),
    decreases a.len(),
{
    if a.len() > 0 {
        assert(flows_equiv(a.drop_last(), b.drop_last())) by {
            assert(forall|i: int|
                0 <= i < a.len() - 1 ==> #[trigger] a.drop_last()[i] == a[i]);
            assert(forall|i: int|
                0 <= i < b.len() - 1 ==> #[trigger] b.drop_last()[i] == b[i]);
        }
        lemma_month_txs_equiv(a.drop_last(), b.drop_last(), t, bal);
        lemma_flow_eval_equiv(a.last(), b.last(), t, bal);
    }
}

/// Interchangeable flow lists produce the same year of months.
proof fn lemma_run_months_equiv(a: Seq<Flow>, b: Seq<Flow>, year: Year, bal: int, n: int)
    requires
        flows_equiv(a, b),
    ensures
        run_months(a, year, bal, n) == run_months(b, year, bal, n),
    decreases n,
{
    if n > 0 {
        lemma_run_months_equiv(a, b, year, bal, n - 1);
        match run_months(a, year, bal, n - 1) {
            Some((months, mb)) => {
                lemma_month_txs_equiv(a, b, Time { year, month: Month::from_idx(n - 1) }, mb);
            },
            None => {
            },
        }
    }
}

/// Equivalent flow maps register the same categories, with
/// interchangeable flow lists.
proof fn lemma_flows_for_equiv(
    a: Seq<(CategoryName, Seq<Flow>)>,
    b: Seq<(CategoryName, Seq<Flow>)>,
    name: Seq<char>,
)
    requires
        maps_equiv(a, b),
    ensures
        match (flows_for(a, name), flows_for(b, name)) {
            (Some(x), Some(y)) => flows_equiv(x, y),
            (None, None) => true,
            _ => false,
        },
    decreases a.len(),
{
    if a.len() > 0 {
        assert(a[0].0 == b[0].0 && flows_equiv(a[0].1, b[0].1));
        if a.first().0.0@ != name {
            assert(maps_equiv(a.drop_first(), b.drop_first())) by {
                assert(forall|i: int|
                    0 <= i < a.len() - 1 ==> #[trigger] a.drop_first()[i] == a[i + 1]);
                assert(forall|i: int|
                    0 <= i < b.len() - 1 ==> #[trigger] b.drop_first()[i] == b[i + 1]);
            }
            lemma_flows_for_equiv(a.drop_first(), b.drop_first(), name);
        }
    }
}

/// Equivalent flow maps run a year's categories to the same outcome.
proof fn lemma_run_cats_equiv(
    categories: Seq<Category>,
    a: Seq<(CategoryName, Seq<Flow>)>,
    b: Seq<(CategoryName, Seq<Flow>)>,
    year: Year,
    balances: Seq<int>,
    n: int,
)
    requires
        maps_equiv(a, b),
    ensures
        run_cats(categories, a, year, balances, n) == run_cats(categories, b, year, balances, n),
    decreases n,
{
    if n > 0 {
        lemma_run_cats_equiv(categories, a, b, year, balances, n - 1);
        let name = categories[n - 1].name.0@;
        lemma_flows_for_equiv(a, b, name);
        match (flows_for(a, name), flows_for(b, name)) {
            (Some(fa), Some(fb)) => {
                lemma_run_months_equiv(fa, fb, year, balances[n - 1], 12);
            },
            _ => {
            },
        }
    }
}

/// Appending interchangeable flows under the same key keeps flow maps
/// equivalent.
proof fn lemma_append_flow_equiv(
    a: Seq<(CategoryName, Seq<Flow>)>,
    b: Seq<(CategoryName, Seq<Flow>)>,
    name: CategoryName,
    f1: Flow,
    f2: Flow,
)
    requires
        maps_equiv(a, b),
        flow_equiv(f1, f2),
    ensures
        maps_equiv(append_flow(a, name, f1), append_flow(b, name, f2)),
    decreases a.len(),
{
    let ra = append_flow(a, name, f1);
    let rb = append_flow(b, name, f2);
    if a.len() == 0 {
        assert(flows_equiv(seq![f1], seq![f2])) by {
            assert(seq![f1][0] == f1 && seq![f2][0] == f2);
        }
        assert(maps_equiv(ra, rb)) by {
            assert(ra[0] == (name, seq![f1]) && rb[0] == (name, seq![f2]));
        }
    } else if a.first().0.0@ == name.0@ {
        assert(flows_equiv(a.first().1.push(f1), b.first().1.push(f2))) by {
            assert(forall|i: int|
                0 <= i < a.first().1.len() ==> #[trigger] a.first().1.push(f1)[i]
                    == a.first().1[i]);
            assert(forall|i: int|
                0 <= i < b.first().1.len() ==> #[trigger] b.first().1.push(f2)[i]
                    == b.first().1[i]);
            assert(a.first().1.push(f1).last() == f1 && b.first().1.push(f2).last() == f2);
        }
        assert(maps_equiv(ra, rb)) by {
            assert(forall|i: int| 1 <= i < ra.len() ==> #[trigger] ra[i] == a[i]);
            assert(forall|i: int| 1 <= i < rb.len() ==> #[trigger] rb[i] == b[i]);
            assert(ra[0] == (a.first().0, a.first().1.push(f1)));
            assert(rb[0] == (b.first().0, b.first().1.push(f2)));
        }
    } else {
        assert(maps_equiv(a.drop_first(), b.drop_first())) by {
            assert(forall|i: int|
                0 <= i < a.len() - 1 ==> #[trigger] a.drop_first()[i] == a[i + 1]);
            assert(forall|i: int|
                0 <= i < b.len() - 1 ==> #[trigger] b.drop_first()[i] == b[i + 1]);
        }
        lemma_append_flow_equiv(a.drop_first(), b.drop_first(), name, f1, f2);
        let ia = append_flow(a.drop_first(), name, f1);
        let ib = append_flow(b.drop_first(), name, f2);
        assert(maps_equiv(ra, rb)) by {
            assert(ra[0] == a.first() && rb[0] == b.first());
            assert(forall|i: int| 1 <= i < ra.len() ==> #[trigger] ra[i] == ia[i - 1]);
            assert(forall|i: int| 1 <= i < rb.len() ==> #[trigger] rb[i] == ib[i - 1]);
        }
    }
}

/// Flow-map equivalence is reflexive.
proof fn lemma_maps_equiv_refl(a: Seq<(CategoryName, Seq<Flow>)>)
    ensures
        maps_equiv(a, a),
{
    assert forall|i: int| 0 <= i < a.len() implies (#[trigger] a[i]).0 == a[i].0 && flows_equiv(
        a[i].1,
        a[i].1,
    ) by {
        assert(forall|j: int|
            0 <= j < a[i].1.len() ==> flow_equiv(#[trigger] a[i].1[j], a[i].1[j]));
    }
}

/// A successful run simulates one year per span step.
proof fn lemma_run_years_len(
    categories: Seq<Category>,
    flows: Seq<(CategoryName, Seq<Flow>)>,
    policy: AnnualTaxPolicy,
    tax_category: CategoryName,
    start: int,
    balances: Seq<int>,
    injected: Seq<Flow>,
    n: int,
)
    requires
        n >= 0,
        run_years_spec(categories, flows, policy, tax_category, start, n, balances, injected)
            is Some,
    ensures
        match run_years_spec(
            categories,
            flows,
            policy,
            tax_category,
            start,
            n,
            balances,
            injected,
        ) {
            Some(out) => out.0.len() == n,
            None => false,
        },
    decreases n,
{
    if n > 0 {
        lemma_run_years_len(
            categories,
            flows,
            policy,
            tax_category,
            start,
            balances,
            injected,
            n - 1,
        );
    }
}

/// A successful run's earlier years are successful, with the same
/// outcomes.
proof fn lemma_run_years_prefix(
    categories: Seq<Category>,
    flows: Seq<(CategoryName, Seq<Flow>)>,
    policy: AnnualTaxPolicy,
    tax_category: CategoryName,
    start: int,
    balances: Seq<int>,
    injected: Seq<Flow>,
    m: int,
    n: int,
)
    requires
        0 <= m <= n,
        run_years_spec(categories, flows, policy, tax_category, start, n, balances, injected)
            is Some,
    ensures
        run_years_spec(categories, flows, policy, tax_category, start, m, balances, injected)
            is Some,
        match (
            run_years_spec(categories, flows, policy, tax_category, start, m, balances, injected),
            run_years_spec(categories, flows, policy, tax_category, start, n, balances, injected),
        ) {
            (Some(rm), Some(rn)) => rm.0 == rn.0.take(m),
            _ => false,
        },
    decreases n - m,
{
    let rn = run_years_spec(categories, flows, policy, tax_category, start, n, balances, injected);
    if m == n {
        lemma_run_years_len(categories, flows, policy, tax_category, start, balances, injected, n);
        match rn {
            Some(out) => {
                assert(out.0.take(n) =~= out.0);
            },
            None => {
            },
        }
    } else {
        // the span's last year unfolds off the end, so the shorter run
        // succeeded with one fewer year
        let rp = run_years_spec(
            categories,
            flows,
            policy,
            tax_category,
            start,
            n - 1,
            balances,
            injected,
        );
        assert(rp is Some);
        lemma_run_years_len(
            categories,
            flows,
            policy,
            tax_category,
            start,
            balances,
            injected,
            n - 1,
        );
        lemma_run_years_prefix(
            categories,
            flows,
            policy,
            tax_category,
            start,
            balances,
            injected,
            m,
            n - 1,
        );
        match (
            run_years_spec(categories, flows, policy, tax_category, start, m, balances, injected),
            rp,
            rn,
        ) {
            (Some(rm), Some(rpp), Some(ro)) => {
                assert(rpp.0.take(m) =~= ro.0.take(m));
            },
            _ => {
            },
        }
    }
}

/// A conforming witness list conforms over every earlier span too.
proof fn lemma_conforming_prefix(
    categories: Seq<Category>,
    flows: Seq<(CategoryName, Seq<Flow>)>,
    policy: AnnualTaxPolicy,
    tax_category: CategoryName,
    start: int,
    balances: Seq<int>,
    injected: Seq<Flow>,
    m: int,
    n: int,
)
    requires
        0 <= m <= n,
        conforming(categories, flows, policy, tax_category, start, n, balances, injected),
    ensures
        conforming(categories, flows, policy, tax_category, start, m, balances, injected),
{
    lemma_run_years_prefix(
        categories,
        flows,
        policy,
        tax_category,
        start,
        balances,
        injected,
        m,
        n,
    );
    lemma_run_years_len(categories, flows, policy, tax_category, start, balances, injected, n);
    match (
        run_years_spec(categories, flows, policy, tax_category, start, m, balances, injected),
        run_years_spec(categories, flows, policy, tax_category, start, n, balances, injected),
    ) {
        (Some(rm), Some(rn)) => {
            assert forall|k: int| 0 <= k < m implies synthetic_flow_ok(
                #[trigger] injected[k],
                Year((start + k) as u32),
                rm.0[k].2.2,
            ) by {
                assert(rm.0[k] == rn.0.take(m)[k]);
                assert(rn.0.take(m)[k] == rn.0[k]);
            }
        },
        _ => {
        },
    }
}

/// Any two conforming witness lists produce the same per-year outcomes
/// and balances, and equivalent flow maps: the run's results do not
/// depend on which conforming witnesses are chosen. (A witness's only
/// freedom is its description text and string identity, which the
/// evaluation never reads.)
proof fn lemma_run_years_unique(
    categories: Seq<Category>,
    flows: Seq<(CategoryName, Seq<Flow>)>,
    policy: AnnualTaxPolicy,
    tax_category: CategoryName,
    start: int,
    balances: Seq<int>,
    inj1: Seq<Flow>,
    inj2: Seq<Flow>,
    m: int,
)
    requires
        m >= 0,
        inj1.len() >= m,
        inj2.len() >= m,
        conforming(categories, flows, policy, tax_category, start, m, balances, inj1),
        conforming(categories, flows, policy, tax_category, start, m, balances, inj2),
    ensures
        match (
            run_years_spec(categories, flows, policy, tax_category, start, m, balances, inj1),
            run_years_spec(categories, flows, policy, tax_category, start, m, balances, inj2),
        ) {
            (Some(r1), Some(r2)) => r1.0 == r2.0 && r1.1 == r2.1 && maps_equiv(r1.2, r2.2),
            _ => false,
        },
    decreases m,
{
    if m == 0 {
        lemma_maps_equiv_refl(flows);
    } else {
        lemma_conforming_prefix(
            categories,
            flows,
            policy,
            tax_category,
            start,
            balances,
            inj1,
            m - 1,
            m,
        );
        lemma_conforming_prefix(
            categories,
            flows,
            policy,
            tax_category,
            start,
            balances,
            inj2,
            m - 1,
            m,
        );
        lemma_run_years_unique(
            categories,
            flows,
            policy,
            tax_category,
            start,
            balances,
            inj1,
            inj2,
            m - 1,
        );
        let p1 = run_years_spec(
            categories,
            flows,
            policy,
            tax_category,
            start,
            m - 1,
            balances,
            inj1,
        );
        let p2 = run_years_spec(
            categories,
            flows,
            policy,
            tax_category,
            start,
            m - 1,
            balances,
            inj2,
        );
        match (p1, p2) {
            (Some((y1, b1, f1)), Some((y2, b2, f2))) => {
                let y = Year((start + m - 1) as u32);
                lemma_run_cats_equiv(categories, f1, f2, y, b1, categories.len() as int);
                match run_cats(categories, f1, y, b1, categories.len() as int) {
                    Some((summ, nbs, sums)) => {
                        // the year's outcomes agree, so the witnesses'
                        // deltas do, and the witnesses are interchangeable
                        let r1 = run_years_spec(
                            categories,
                            flows,
                            policy,
                            tax_category,
                            start,
                            m,
                            balances,
                            inj1,
                        );
                        let r2 = run_years_spec(
                            categories,
                            flows,
                            policy,
                            tax_category,
                            start,
                            m,
                            balances,
                            inj2,
                        );
                        match (r1, r2) {
                            (Some(o1), Some(o2)) => {
                                assert(o1.0[m - 1].2.2 == o2.0[m - 1].2.2);
                                assert(synthetic_flow_ok(inj1[m - 1], y, o1.0[m - 1].2.2));
                                assert(synthetic_flow_ok(inj2[m - 1], y, o2.0[m - 1].2.2));
                                assert(flow_equiv(inj1[m - 1], inj2[m - 1]));
                                lemma_append_flow_equiv(
                                    f1,
                                    f2,
                                    tax_category,
                                    inj1[m - 1],
                                    inj2[m - 1],
                                );
                            },
                            _ => {
                            },
                        }
                    },
                    None => {
                    },
                }
            },
            _ => {
            },
        }
    }
}

/// The balance changes and per-flow transactions of every simulated year.
#[derive(Debug)]
pub struct ModelReport {
    pub years: Vec<(Year, YearlyReport)>,
}

/// One simulated year: each category's monthly reports, the year's tax
/// totals, and its reconciliation outcome.
#[derive(Debug)]
pub struct YearlyReport {
    pub category_summary: Vec<(CategoryName, Vec<(Month, MonthlyReport)>)>,
    pub tax_summary: TaxSummary,
    pub tax_adjustment: TaxAdjustment,
}

/// The simulation driver: the configured categories, the flows of each
/// category, the annual tax policy and the category that receives the
/// yearly tax adjustment.
pub struct Model {
    pub categories: Vec<Category>,
    pub flows: Vec<(CategoryName, Vec<Flow>)>,
    pub tax_policy: AnnualTaxPolicy,
    pub tax_category: CategoryName,
}

impl Model {
    /// Whether `name` names one of the categories.
    fn contains_name(categories: &Vec<Category>, name: &CategoryName) -> (r: bool)
        ensures
            r == has_name(category_names(categories@), name@),
    {
        let mut i: usize = 0;
        while i < categories.len()
            invariant
                0 <= i <= categories@.len(),
                forall|k: int| 0 <= k < i ==> category_names(categories@)[k] != name@,
            decreases categories@.len() - i,
        {
            if categories[i].name.same(name) {
                proof {
                    assert(category_names(categories@)[i as int] == name@);
                }
                return true;
            }
            i = i + 1;
        }
        false
    }

    /// Build a model, validating its configuration: the tax category and
    /// every flow key must name a configured category, and no category may
    /// key two flow lists. Succeeds exactly on valid configurations; an
    /// unknown or duplicated name is a fatal error.
    pub fn new(
        flows: Vec<(CategoryName, Vec<Flow>)>,
        categories: Vec<Category>,
        tax_policy: AnnualTaxPolicy,
        tax_category: CategoryName,
    ) -> (r: Result<Model, ModelError>)
        ensures
            r is Ok <==> model_valid(categories@, flows_view(flows@), tax_category),
            r matches Ok(m) ==> {
                &&& m.categories == categories
                &&& m.flows == flows
                &&& m.tax_policy == tax_policy
                &&& m.tax_category == tax_category
            },
            r matches Err(e) ==> (e == ModelError::UnknownTaxCategory <==> !has_name(
                category_names(categories@),
                tax_category@,
            )),
    {
        if !Self::contains_name(&categories, &tax_category) {
            return Err(ModelError::UnknownTaxCategory);
        }
        let mut i: usize = 0;
        while i < flows.len()
            invariant
                0 <= i <= flows@.len(),
                forall|k: int|
                    0 <= k < i ==> has_name(
                        category_names(categories@),
                        (#[trigger] flows_view(flows@)[k]).0.0@,
                    ),
                has_name(category_names(categories@), tax_category@),
            decreases flows@.len() - i,
        {
            if !Self::contains_name(&categories, &flows[i].0) {
                proof {
                    assert(flows_view(flows@)[i as int].0 == flows@[i as int].0);
                }
                return Err(ModelError::UnknownFlowCategory);
            }
            i = i + 1;
        }
        let mut a: usize = 0;
        while a < flows.len()
            invariant
                0 <= a <= flows@.len(),
                has_name(category_names(categories@), tax_category@),
                forall|k: int|
                    0 <= k < flows@.len() ==> has_name(
                        category_names(categories@),
                        (#[trigger] flows_view(flows@)[k]).0.0@,
                    ),
                forall|i: int, j: int|
                    0 <= i < j < flows@.len() && i < a ==> (#[trigger] flows_view(flows@)[i]).0.0@
                        != (#[trigger] flows_view(flows@)[j]).0.0@,
            decreases flows@.len() - a,
        {
            let mut b: usize = a + 1;
            while b < flows.len()
                invariant
                    0 <= a < b <= flows@.len(),
                    has_name(category_names(categories@), tax_category@),
                    forall|j: int|
                        a < j < b ==> (#[trigger] flows_view(flows@)[j]).0.0@ != flows_view(
                            flows@,
                        )[a as int].0.0@,
                decreases flows@.len() - b,
            {
                if flows[a].0.same(&flows[b].0) {
                    proof {
                        assert(flows_view(flows@)[a as int].0 == flows@[a as int].0);
                        assert(flows_view(flows@)[b as int].0 == flows@[b as int].0);
                    }
                    return Err(ModelError::DuplicateFlowCategory);
                }
                b = b + 1;
            }
            a = a + 1;
        }
        Ok(Model { categories, flows, tax_policy, tax_category })
    }

    /// The flows registered for a category name, if any.
    fn lookup_flows<'a>(
        flows: &'a Vec<(CategoryName, Vec<Flow>)>,
        name: &CategoryName,
    ) -> (r: Option<&'a Vec<Flow>>)
        ensures
            match r {
                Some(fl) => flows_for(flows_view(flows@), name@) == Some(fl@),
                None => flows_for(flows_view(flows@), name@) is None,
            },
    {
        let mut i: usize = 0;
        proof {
            assert(flows_view(flows@).skip(0) =~= flows_view(flows@));
        }
        while i < flows.len()
            invariant
                0 <= i <= flows@.len(),
                flows_for(flows_view(flows@), name@) == flows_for(
                    flows_view(flows@).skip(i as int),
                    name@,
                ),
            decreases flows@.len() - i,
        {
            proof {
                assert(flows_view(flows@).skip(i as int).first() == flows_view(flows@)[i as int]);
                assert(flows_view(flows@).skip(i as int).drop_first() =~= flows_view(
                    flows@,
                ).skip(i as int + 1));
            }
            if flows[i].0.same(name) {
                return Some(&flows[i].1);
            }
            i = i + 1;
        }
        proof {
            assert(flows_view(flows@).skip(flows@.len() as int) =~= Seq::empty());
        }
        None
    }

    /// Append one flow to the list of a category: to the first entry with
    /// that name, or as a new entry at the end.
    fn push_flow(flows: &mut Vec<(CategoryName, Vec<Flow>)>, name: &CategoryName, f: Flow)
        ensures
            flows_view(final(flows)@) == append_flow(flows_view(old(flows)@), *name, f),
    {
        let ghost v = flows_view(flows@);
        let mut i: usize = 0;
        while i < flows.len()
            invariant
                0 <= i <= flows@.len(),
                flows@ == old(flows)@,
                v == flows_view(flows@),
                forall|k: int| 0 <= k < i ==> (#[trigger] v[k]).0.0@ != name.0@,
            decreases flows@.len() - i,
        {
            if flows[i].0.same(name) {
                let (n, mut fl) = flows.remove(i);
                fl.push(f);
                flows.insert(i, (n, fl));
                proof {
                    lemma_append_flow_found(v, i as int, *name, f);
                    assert(flows_view(final(flows)@) =~= v.update(
                        i as int,
                        (v[i as int].0, v[i as int].1.push(f)),
                    ));
                }
                return ;
            }
            i = i + 1;
        }
        let mut single: Vec<Flow> = Vec::new();
        single.push(f);
        flows.push((CategoryName(name.0.clone()), single));
        proof {
            lemma_append_flow_missing(v, *name, f);
            assert(flows_view(final(flows)@) =~= v.push((*name, seq![f])));
        }
    }

    /// Run one year: every category in order, each against the balance it
    /// ended the previous year with; then reconcile the year's tax totals
    /// into an adjustment and the synthetic flow for the following year.
    /// Succeeds exactly when every evaluation, total and reconciliation
    /// stays in range; the report, the new balances and the flow are
    /// pinned by [`run_cats`] and [`adjustment_spec`].
    pub fn run_year(
        categories: &Vec<Category>,
        flows: &Vec<(CategoryName, Vec<Flow>)>,
        tax_policy: &AnnualTaxPolicy,
        year: Year,
        balances: &Vec<Money>,
    ) -> (r: Result<(YearlyReport, Flow, Vec<Money>), RunError>)
        requires
            year.0 < u32::MAX,
            balances@.len() == categories@.len(),
        ensures
            r is Ok <==> (match run_cats(
                categories@,
                flows_view(flows@),
                year,
                balances_view(balances@),
                categories@.len() as int,
            ) {
                Some((summ, nbs, sums)) => adjustment_spec(*tax_policy, sums.1, sums.2) is Some,
                None => false,
            }),
            r matches Ok(t) ==> {
                &&& run_cats(
                    categories@,
                    flows_view(flows@),
                    year,
                    balances_view(balances@),
                    categories@.len() as int,
                ) matches Some((summ, nbs, sums)) && {
                    &&& summaries_view(t.0.category_summary@) == summ
                    &&& balances_view(t.2@) == nbs
                    &&& t.2@.len() == categories@.len()
                    &&& (t.0.tax_summary.net_amount@, t.0.tax_summary.taxable_income@, t.0.tax_summary.tax_withheld@) == sums
                    &&& Some(
                        (
                            t.0.tax_adjustment.owed@,
                            t.0.tax_adjustment.withheld@,
                            t.0.tax_adjustment.delta@,
                            t.0.tax_adjustment.effective_rate@,
                        ),
                    ) == adjustment_spec(*tax_policy, sums.1, sums.2)
                    &&& synthetic_flow_ok(t.1, year, t.0.tax_adjustment.delta@)
                }
            },
            r matches Err(e) ==> e.year == year,
            r matches Err(e) ==> (match e.category {
                Some(c) => exists|i: int|
                    0 <= i < categories@.len() && (#[trigger] categories@[i]).name.0@ == c.0@
                        && run_cats(
                        categories@,
                        flows_view(flows@),
                        year,
                        balances_view(balances@),
                        i,
                    ) is Some && run_cats(
                        categories@,
                        flows_view(flows@),
                        year,
                        balances_view(balances@),
                        i + 1,
                    ) is None,
                None => match run_cats(
                    categories@,
                    flows_view(flows@),
                    year,
                    balances_view(balances@),
                    categories@.len() as int,
                ) {
                    Some(st) => adjustment_spec(*tax_policy, st.2.1, st.2.2) is None,
                    None => false,
                },
            }),
    {
        let ghost fv = flows_view(flows@);
        let ghost bv = balances_view(balances@);
        let mut summary: Vec<(CategoryName, Vec<(Month, MonthlyReport)>)> = Vec::new();
        let mut tax_summary = TaxSummary::new();
        let mut new_balances: Vec<Money> = Vec::new();
        proof {
            assert(summaries_view(summary@) =~= Seq::empty());
            assert(balances_view(new_balances@) =~= Seq::empty());
        }
        let mut i: usize = 0;
        while i < categories.len()
            invariant
                0 <= i <= categories@.len(),
                year.0 < u32::MAX,
                balances@.len() == categories@.len(),
                fv == flows_view(flows@),
                bv == balances_view(balances@),
                new_balances@.len() == i,
                run_cats(categories@, fv, year, bv, i as int) == Some(
                    (
                        summaries_view(summary@),
                        balances_view(new_balances@),
                        (
                            tax_summary.net_amount@,
                            tax_summary.taxable_income@,
                            tax_summary.tax_withheld@,
                        ),
                    ),
                ),
            decreases categories@.len() - i,
        {
            let cat = &categories[i];
            let ghost sums0 = (
                tax_summary.net_amount@,
                tax_summary.taxable_income@,
                tax_summary.tax_withheld@,
            );
            match Self::lookup_flows(flows, &cat.name) {
                None => {
                    new_balances.push(balances[i]);
                    proof {
                        assert(balances_view(new_balances@) =~= balances_view(
                            new_balances@.drop_last(),
                        ).push(bv[i as int]));
                    }
                },
                Some(fl) => {
                    let mut cv = CategoryValue(cat, balances[i]);
                    let cm = CategoryModel { flows: fl };
                    let ms = match cm.run(&mut cv, year) {
                        Ok(ms) => ms,
                        Err(e) => {
                            proof {
                                lemma_run_cats_none(
                                    categories@,
                                    fv,
                                    year,
                                    bv,
                                    i as int + 1,
                                    categories@.len() as int,
                                );
                            }
                            return Err(
                                RunError {
                                    year,
                                    category: Some(CategoryName(cat.name.0.clone())),
                                    month: Some(e.month),
                                    flow: e.flow,
                                    error: e.error,
                                },
                            );
                        },
                    };
                    let ghost months = months_view(ms@);
                    // fold this category's transactions into the tax totals
                    let mut mi: usize = 0;
                    while mi < ms.len()
                        invariant
                            0 <= mi <= ms@.len(),
                            0 <= i < categories@.len(),
                            *cat == categories@[i as int],
                            fv == flows_view(flows@),
                            bv == balances_view(balances@),
                            bv.len() == categories@.len(),
                            months == months_view(ms@),
                            run_cats(categories@, fv, year, bv, i as int) == Some(
                                (summaries_view(summary@), balances_view(new_balances@), sums0),
                            ),
                            flows_for(fv, categories@[i as int].name.0@) == Some(fl@),
                            run_months(fl@, year, bv[i as int], 12) == Some((months, cv.1@)),
                            fold_months_tax(months.take(mi as int), sums0) == Some(
                                (
                                    tax_summary.net_amount@,
                                    tax_summary.taxable_income@,
                                    tax_summary.tax_withheld@,
                                ),
                            ),
                        decreases ms@.len() - mi,
                    {
                        let ghost msums = (
                            tax_summary.net_amount@,
                            tax_summary.taxable_income@,
                            tax_summary.tax_withheld@,
                        );
                        let ghost mtxs = months[mi as int].2;
                        let mut ti: usize = 0;
                        while ti < ms[mi].1.transactions.len()
                            invariant
                                0 <= mi < ms@.len(),
                                0 <= ti <= ms@[mi as int].1.transactions@.len(),
                                0 <= i < categories@.len(),
                                *cat == categories@[i as int],
                                fv == flows_view(flows@),
                                bv == balances_view(balances@),
                                bv.len() == categories@.len(),
                                months == months_view(ms@),
                                mtxs == months[mi as int].2,
                                mtxs == tx_views(ms@[mi as int].1.transactions@),
                                run_cats(categories@, fv, year, bv, i as int) == Some(
                                    (
                                        summaries_view(summary@),
                                        balances_view(new_balances@),
                                        sums0,
                                    ),
                                ),
                                flows_for(fv, categories@[i as int].name.0@) == Some(fl@),
                                run_months(fl@, year, bv[i as int], 12) == Some((months, cv.1@)),
                                fold_txs_tax(mtxs.take(ti as int), msums) == Some(
                                    (
                                        tax_summary.net_amount@,
                                        tax_summary.taxable_income@,
                                        tax_summary.tax_withheld@,
                                    ),
                                ),
                                fold_months_tax(months.take(mi as int), sums0) == Some(msums),
                            decreases ms@[mi as int].1.transactions@.len() - ti,
                        {
                            let tx = &ms[mi].1.transactions[ti].1;
                            proof {
                                assert(mtxs.take(ti as int + 1).drop_last() =~= mtxs.take(
                                    ti as int,
                                ));
                                assert(mtxs.take(ti as int + 1).last() == mtxs[ti as int]);
                            }
                            let ok1 = tax_summary.net_amount.checked_add(tx.amount);
                            let ok2 = tax_summary.taxable_income.checked_add(
                                tx.tax_tx.taxable_income,
                            );
                            let ok3 = tax_summary.tax_withheld.checked_add(tx.tax_tx.tax_withheld);
                            if ok1.is_none() || ok2.is_none() || ok3.is_none() {
                                proof {
                                    lemma_fold_txs_none(mtxs, msums, ti as int + 1);
                                    assert(months.take(mi as int + 1).drop_last() =~= months.take(
                                        mi as int,
                                    ));
                                    assert(months.take(mi as int + 1).last() == months[mi as int]);
                                    lemma_fold_months_none(months, sums0, mi as int + 1);
                                    assert(fold_months_tax(months, sums0) is None);
                                    assert(run_cats(categories@, fv, year, bv, i as int + 1)
                                        is None);
                                    lemma_run_cats_none(
                                        categories@,
                                        fv,
                                        year,
                                        bv,
                                        i as int + 1,
                                        categories@.len() as int,
                                    );
                                    assert((#[trigger] categories@[i as int]).name.0@
                                        == cat.name.0@);
                                    assert(run_cats(categories@, fv, year, bv, i as int)
                                        is Some);
                                }
                                return Err(
                                    RunError {
                                        year,
                                        category: Some(CategoryName(cat.name.0.clone())),
                                        month: Some(ms[mi].0),
                                        flow: Some(
                                            FlowName(ms[mi].1.transactions[ti].0.0.clone()),
                                        ),
                                        error: EvalError::Overflow,
                                    },
                                );
                            }
                            tax_summary.apply_tx(&tx.tax_tx, tx.amount);
                            ti = ti + 1;
                        }
                        proof {
                            assert(mtxs.take(mtxs.len() as int) =~= mtxs);
                            assert(months.take(mi as int + 1).drop_last() =~= months.take(
                                mi as int,
                            ));
                            assert(months.take(mi as int + 1).last() == months[mi as int]);
                        }
                        mi = mi + 1;
                    }
                    proof {
                        assert(months.take(months.len() as int) =~= months);
                    }
                    new_balances.push(cv.value());
                    summary.push((CategoryName(cat.name.0.clone()), ms));
                    proof {
                        assert(balances_view(new_balances@) =~= balances_view(
                            new_balances@.drop_last(),
                        ).push(cv.1@));
                        assert(summaries_view(summary@) =~= summaries_view(
                            summary@.drop_last(),
                        ).push((cat.name.0@, months)));
                    }
                },
            }
            i = i + 1;
        }
        let (adjustment, tax_flow) = match tax_policy.calculate_adjustment(year, &tax_summary) {
            Ok(p) => p,
            Err(_) => {
                return Err(
                    RunError {
                        year,
                        category: None,
                        month: None,
                        flow: None,
                        error: EvalError::Overflow,
                    },
                );
            },
        };
        Ok(
            (
                YearlyReport {
                    category_summary: summary,
                    tax_summary,
                    tax_adjustment: adjustment,
                },
                tax_flow,
                new_balances,
            ),
        )
    }

    /// Run the whole simulation over a half-open range of years. Each
    /// category starts from the sum of its assets; each year starts from
    /// the balances and flow map the previous year left behind, and its
    /// reconciliation flow is appended to the tax category's flows before
    /// the next year runs. The run succeeds exactly when a [`conforming`]
    /// witness list of reconciliation flows exists — that is, whenever
    /// every evaluation, total and reconciliation stays in range — and
    /// the report is then exactly [`run_years_spec`] for the synthetic
    /// flows the run injected; a failure names the year, category, month
    /// and flow at fault.
    pub fn run(&mut self, time_range: TimeRange<Year>) -> (r: Result<ModelReport, RunError>)
        requires
            forall|i: int|
                0 <= i < old(self).categories@.len() ==> i64::MIN <= assets_total(
                    (#[trigger] old(self).categories@[i]).assets@,
                ) <= i64::MAX,
        ensures
            final(self).categories == old(self).categories,
            final(self).tax_policy == old(self).tax_policy,
            final(self).tax_category == old(self).tax_category,
            r is Ok <==> exists|injected: Seq<Flow>|
                injected.len() == time_range.spec_len() && conforming(
                    old(self).categories@,
                    flows_view(old(self).flows@),
                    old(self).tax_policy,
                    old(self).tax_category,
                    time_range.start.0 as int,
                    time_range.spec_len(),
                    init_balances(old(self).categories@),
                    injected,
                ),
            time_range.start.0 >= time_range.end.0 ==> r is Ok,
            r matches Err(e) ==> time_range.start.0 <= e.year.0 < time_range.end.0,
            r matches Ok(report) ==> {
                let n = time_range.spec_len();
                exists|injected: Seq<Flow>|
                    {
                        &&& injected.len() == n
                        &&& run_years_spec(
                            old(self).categories@,
                            flows_view(old(self).flows@),
                            old(self).tax_policy,
                            old(self).tax_category,
                            time_range.start.0 as int,
                            n,
                            init_balances(old(self).categories@),
                            injected,
                        ) matches Some((yrs, _, fls)) && {
                            &&& years_view(report.years@) == yrs
                            &&& flows_view(final(self).flows@) == fls
                            &&& report.years@.len() == n
                            &&& (forall|k: int|
                                0 <= k < n ==> (#[trigger] report.years@[k]).0 == Year(
                                    (time_range.start.0 + k) as u32,
                                ))
                            &&& (forall|k: int|
                                0 <= k < n ==> synthetic_flow_ok(
                                    #[trigger] injected[k],
                                    Year((time_range.start.0 + k) as u32),
                                    yrs[k].2.2,
                                ))
                        }
                    }
            },
    {
        let years = time_range.values();
        let mut balances: Vec<Money> = Vec::new();
        proof {
            assert(balances_view(balances@) =~= Seq::empty());
        }
        let mut ci: usize = 0;
        while ci < self.categories.len()
            invariant
                0 <= ci <= self.categories@.len(),
                self == old(self),
                forall|i: int|
                    0 <= i < self.categories@.len() ==> i64::MIN <= assets_total(
                        (#[trigger] self.categories@[i]).assets@,
                    ) <= i64::MAX,
                balances@.len() == ci,
                balances_view(balances@) == init_balances(self.categories@).take(ci as int),
            decreases self.categories@.len() - ci,
        {
            let cv = self.categories[ci].value();
            balances.push(cv.value());
            proof {
                assert(init_balances(self.categories@).take(ci as int + 1).drop_last()
                    =~= init_balances(self.categories@).take(ci as int));
                assert(balances_view(balances@) =~= balances_view(balances@.drop_last()).push(
                    cv.1@,
                ));
                assert(init_balances(self.categories@)[ci as int] == assets_total(
                    self.categories@[ci as int].assets@,
                ));
                assert(balances_view(balances@) =~= init_balances(self.categories@).take(
                    ci as int + 1,
                ));
            }
            ci = ci + 1;
        }
        proof {
            assert(init_balances(self.categories@).take(self.categories@.len() as int)
                =~= init_balances(self.categories@));
        }
        let ghost start = time_range.start.0 as int;
        let ghost n = time_range.spec_len();
        let ghost init_bal = balances_view(balances@);
        let mut out: Vec<(Year, YearlyReport)> = Vec::new();
        let ghost injected: Seq<Flow> = Seq::empty();
        proof {
            assert(years_view(out@) =~= Seq::empty());
        }
        proof {
            assert forall|k: int| 0 <= k < n implies (#[trigger] years@[k]).0 == start + k by {
                assert(years@[k].key() == time_range.start.key() + k);
            }
        }
        let mut yi: usize = 0;
        while yi < years.len()
            invariant
                0 <= yi <= years@.len(),
                years@.len() == n,
                n == time_range.spec_len(),
                start == time_range.start.0 as int,
                forall|k: int| 0 <= k < n ==> (#[trigger] years@[k]).0 == start + k,
                self.categories == old(self).categories,
                self.tax_policy == old(self).tax_policy,
                self.tax_category == old(self).tax_category,
                forall|i: int|
                    0 <= i < self.categories@.len() ==> i64::MIN <= assets_total(
                        (#[trigger] self.categories@[i]).assets@,
                    ) <= i64::MAX,
                init_bal == init_balances(old(self).categories@),
                injected.len() == yi,
                out@.len() == yi,
                balances@.len() == self.categories@.len(),
                forall|k: int|
                    0 <= k < yi ==> (#[trigger] out@[k]).0 == Year((start + k) as u32),
                run_years_spec(
                    old(self).categories@,
                    flows_view(old(self).flows@),
                    old(self).tax_policy,
                    old(self).tax_category,
                    start,
                    yi as int,
                    init_bal,
                    injected,
                ) == Some(
                    (years_view(out@), balances_view(balances@), flows_view(self.flows@)),
                ),
                forall|k: int|
                    0 <= k < yi ==> synthetic_flow_ok(
                        #[trigger] injected[k],
                        Year((start + k) as u32),
                        years_view(out@)[k].2.2,
                    ),
            decreases years@.len() - yi,
        {
            let y = years[yi];
            proof {
                assert(y.0 == start + yi);
                assert(y.0 < u32::MAX);
            }
            match Self::run_year(&self.categories, &self.flows, &self.tax_policy, y, &balances) {
                Ok((report, tax_flow, nb)) => {
                    let ghost prev_injected = injected;
                    let ghost prev_out = years_view(out@);
                    proof {
                        injected = injected.push(tax_flow);
                        lemma_run_years_spec_extend(
                            old(self).categories@,
                            flows_view(old(self).flows@),
                            old(self).tax_policy,
                            old(self).tax_category,
                            start,
                            yi as int,
                            init_bal,
                            prev_injected,
                            injected,
                        );
                    }
                    balances = nb;
                    Self::push_flow(&mut self.flows, &self.tax_category, tax_flow);
                    out.push((y, report));
                    proof {
                        assert(years_view(out@) =~= prev_out.push(yearly_view(out@.last().1)));
                    }
                },
                Err(e) => {
                    proof {
                        // no witness list can make the run succeed: any
                        // conforming one reaches this year with a state
                        // interchangeable with the actual one, on which
                        // this year just failed
                        if exists|inj2: Seq<Flow>|
                            inj2.len() == n && conforming(
                                old(self).categories@,
                                flows_view(old(self).flows@),
                                old(self).tax_policy,
                                old(self).tax_category,
                                start,
                                n,
                                init_bal,
                                inj2,
                            ) {
                            let inj2 = choose|inj2: Seq<Flow>|
                                inj2.len() == n && conforming(
                                    old(self).categories@,
                                    flows_view(old(self).flows@),
                                    old(self).tax_policy,
                                    old(self).tax_category,
                                    start,
                                    n,
                                    init_bal,
                                    inj2,
                                );
                            lemma_conforming_prefix(
                                old(self).categories@,
                                flows_view(old(self).flows@),
                                old(self).tax_policy,
                                old(self).tax_category,
                                start,
                                init_bal,
                                inj2,
                                yi as int,
                                n,
                            );
                            lemma_conforming_prefix(
                                old(self).categories@,
                                flows_view(old(self).flows@),
                                old(self).tax_policy,
                                old(self).tax_category,
                                start,
                                init_bal,
                                inj2,
                                yi as int + 1,
                                n,
                            );
                            assert(conforming(
                                old(self).categories@,
                                flows_view(old(self).flows@),
                                old(self).tax_policy,
                                old(self).tax_category,
                                start,
                                yi as int,
                                init_bal,
                                injected,
                            ));
                            lemma_run_years_unique(
                                old(self).categories@,
                                flows_view(old(self).flows@),
                                old(self).tax_policy,
                                old(self).tax_category,
                                start,
                                init_bal,
                                injected,
                                inj2,
                                yi as int,
                            );
                            let p2 = run_years_spec(
                                old(self).categories@,
                                flows_view(old(self).flows@),
                                old(self).tax_policy,
                                old(self).tax_category,
                                start,
                                yi as int,
                                init_bal,
                                inj2,
                            );
                            match p2 {
                                Some((y2, b2, f2)) => {
                                    assert(y2 == years_view(out@) && b2 == balances_view(
                                        balances@,
                                    ) && maps_equiv(flows_view(self.flows@), f2));
                                    assert(y == Year((start + yi) as u32));
                                    lemma_run_cats_equiv(
                                        old(self).categories@,
                                        flows_view(self.flows@),
                                        f2,
                                        y,
                                        b2,
                                        old(self).categories@.len() as int,
                                    );
                                    assert(false);
                                },
                                None => {
                                    assert(false);
                                },
                            }
                        }
                    }
                    return Err(e);
                },
            }
            yi = yi + 1;
        }
        proof {
            assert(conforming(
                old(self).categories@,
                flows_view(old(self).flows@),
                old(self).tax_policy,
                old(self).tax_category,
                start,
                n,
                init_bal,
                injected,
            ));
        }
        Ok(ModelReport { years: out })
    }
}

/// The starting balances: each category's assets summed.
pub open spec fn init_balances(cs: Seq<Category>) -> Seq<int> {
    cs.map_values(|c: Category| assets_total(c.assets@))
}

/// Extending the witness list does not change the years already run.
proof fn lemma_run_years_spec_extend(
    categories: Seq<Category>,
    flows: Seq<(CategoryName, Seq<Flow>)>,
    policy: AnnualTaxPolicy,
    tax_category: CategoryName,
    start: int,
    n: int,
    balances: Seq<int>,
    injected1: Seq<Flow>,
    injected2: Seq<Flow>,
)
    requires
        n >= 0,
        injected1.len() >= n,
        injected2.len() >= n,
        forall|k: int| 0 <= k < n ==> injected1[k] == injected2[k],
    ensures
        run_years_spec(categories, flows, policy, tax_category, start, n, balances, injected1)
            == run_years_spec(
            categories,
            flows,
            policy,
            tax_category,
            start,
            n,
            balances,
            injected2,
        ),
    decreases n,
{
    if n > 0 {
        lemma_run_years_spec_extend(
            categories,
            flows,
            policy,
            tax_category,
            start,
            n - 1,
            balances,
            injected1,
            injected2,
        );
    }
}

/// The flow map keeps its shape when a flow is appended to the first
/// entry of a name.
proof fn lemma_append_flow_found(
    s: Seq<(CategoryName, Seq<Flow>)>,
    i: int,
    name: CategoryName,
    f: Flow,
)
    requires
        0 <= i < s.len(),
        s[i].0.0@ == name.0@,
        forall|k: int| 0 <= k < i ==> (#[trigger] s[k]).0.0@ != name.0@,
    ensures
        append_flow(s, name, f) == s.update(i, (s[i].0, s[i].1.push(f))),
    decreases i,
{
    if i == 0 {
        assert(seq![(s.first().0, s.first().1.push(f))] + s.drop_first() =~= s.update(
            0,
            (s[0].0, s[0].1.push(f)),
        ));
    } else {
        assert(forall|k: int|
            0 <= k < i - 1 ==> (#[trigger] s.drop_first()[k]).0 == s[k + 1].0);
        lemma_append_flow_found(s.drop_first(), i - 1, name, f);
        assert(seq![s.first()] + s.drop_first().update(i - 1, (s[i].0, s[i].1.push(f)))
            =~= s.update(i, (s[i].0, s[i].1.push(f))));
    }
}

/// A name with no entry gets a fresh entry at the end.
proof fn lemma_append_flow_missing(s: Seq<(CategoryName, Seq<Flow>)>, name: CategoryName, f: Flow)
    requires
        forall|k: int| 0 <= k < s.len() ==> (#[trigger] s[k]).0.0@ != name.0@,
    ensures
        append_flow(s, name, f) == s.push((name, seq![f])),
    decreases s.len(),
{
    if s.len() == 0 {
        assert(seq![(name, seq![f])] =~= s.push((name, seq![f])));
    } else {
        assert(forall|k: int|
            0 <= k < s.drop_first().len() ==> (#[trigger] s.drop_first()[k]).0 == s[k + 1].0);
        lemma_append_flow_missing(s.drop_first(), name, f);
        assert(seq![s.first()] + s.drop_first().push((name, seq![f])) =~= s.push(
            (name, seq![f]),
        ));
    }
}

} // verus!
