//! Cash flows: a named, time-windowed, frequency-gated source of value,
//! with a valuation policy that computes a gross amount and a withholding
//! policy that turns it into a net transaction.

use crate::asset::{CategoryValue, Money, Rate, Tx};
use crate::errors::EvalError;
use crate::lookup_table::{
    lemma_money_entries, lemma_rate_entries, lookup_spec, money_entries, rate_entries, LookupTable,
};
use crate::tax::{tax_spec, TaxPolicy};
use crate::tdiv;
use crate::time::{even_freq_spec, time_key, Frequency, Time, TimeRange};
use vstd::prelude::*;

verus! {

/// The name of a flow; transactions are keyed by it in the reports.
#[derive(Debug, Clone, PartialEq, Eq, PartialOrd, Ord, Hash)]
pub struct FlowName(pub String);

/// A valuation policy returning a constant amount.
#[derive(Debug, Clone)]
pub struct FixedFlow {
    pub value: Money,
}

/// A valuation policy proportional to the category's current balance.
#[derive(Debug, Clone)]
pub struct RateFlow {
    pub rate: Rate,
}

/// A valuation policy reading an amount from a table by time.
#[derive(Debug, Clone)]
pub struct TableFlow {
    pub table: LookupTable<Time, Money>,
}

/// A valuation policy applying a table-driven rate to the current balance.
#[derive(Debug, Clone)]
pub struct RateTableFlow {
    pub table: LookupTable<Time, Rate>,
}

/// A valuation policy scaling a table-driven per-unit amount by a unit
/// count (for example a share price series times a share count).
#[derive(Debug, Clone)]
pub struct UnitsTableFlow {
    pub units: i64,
    pub table: LookupTable<Time, Money>,
}

/// The closed set of flow valuation policies.
#[derive(Debug, Clone)]
pub enum FlowValue {
    Fixed(FixedFlow),
    Rate(RateFlow),
    Table(TableFlow),
    RateTable(RateTableFlow),
    UnitsTable(UnitsTableFlow),
}

/// A flow: a window `[start, end)`, a recurrence frequency, how each
/// occurrence is valued, and how it is taxed.
#[derive(Debug, Clone)]
pub struct Flow {
    pub name: FlowName,
    pub description: String,
    pub start: Time,
    pub end: Time,
    pub frequency: Frequency,
    pub value: FlowValue,
    pub tax_policy: TaxPolicy,
}

/// Whether a flow occurs at a time: the window's start is inclusive, its
/// end exclusive, and within the window the months elapsed since the
/// start must land on the flow's frequency.
pub open spec fn applies_at_spec(flow: Flow, t: Time) -> bool {
    &&& time_key(flow.start) <= time_key(t)
    &&& time_key(t) < time_key(flow.end)
    &&& even_freq_spec(time_key(t) - time_key(flow.start), flow.frequency)
}

/// A balance scaled by a rate at full precision, truncating toward zero;
/// nothing when the product leaves the 64-bit range.
pub open spec fn rate_apply_spec(balance: int, raw: int) -> Option<int> {
    if i64::MIN <= balance * raw <= i64::MAX {
        Some(tdiv(balance * raw, 100000000))
    } else {
        None
    }
}

/// The value of the first money entry whose range contains the key.
pub open spec fn lookup_money(s: Seq<(TimeRange<Time>, Money)>, k: int) -> Option<Money>
    decreases s.len(),
{
    if s.len() == 0 {
        None
    } else if time_key(s.first().0.start) <= k < time_key(s.first().0.end) {
        Some(s.first().1)
    } else {
        lookup_money(s.drop_first(), k)
    }
}

/// The value of the first rate entry whose range contains the key.
pub open spec fn lookup_rate(s: Seq<(TimeRange<Time>, Rate)>, k: int) -> Option<Rate>
    decreases s.len(),
{
    if s.len() == 0 {
        None
    } else if time_key(s.first().0.start) <= k < time_key(s.first().0.end) {
        Some(s.first().1)
    } else {
        lookup_rate(s.drop_first(), k)
    }
}

/// The concrete money lookup agrees with the generic table lookup.
pub proof fn lemma_lookup_money(s: Seq<(TimeRange<Time>, Money)>, k: int)
    ensures
        lookup_money(s, k) == lookup_spec(s, k),
    decreases s.len(),
{
    if s.len() > 0 {
        lemma_lookup_money(s.drop_first(), k);
    }
}

/// The concrete rate lookup agrees with the generic table lookup.
pub proof fn lemma_lookup_rate(s: Seq<(TimeRange<Time>, Rate)>, k: int)
    ensures
        lookup_rate(s, k) == lookup_spec(s, k),
    decreases s.len(),
{
    if s.len() > 0 {
        lemma_lookup_rate(s.drop_first(), k);
    }
}

/// The gross amount a valuation policy yields at a time against a
/// category balance, or nothing when it fails (overflow, or a time
/// outside a table's cover).
pub open spec fn value_at_spec(fv: FlowValue, t: Time, balance: int) -> Option<int> {
    match fv {
        FlowValue::Fixed(f) => Some(f.value@),
        FlowValue::Rate(rf) => rate_apply_spec(balance, rf.rate@),
        FlowValue::Table(tf) => match lookup_money(money_entries(tf.table), time_key(t)) {
            Some(m) => Some(m@),
            None => None,
        },
        FlowValue::RateTable(rt) => match lookup_rate(rate_entries(rt.table), time_key(t)) {
            Some(r) => rate_apply_spec(balance, r@),
            None => None,
        },
        FlowValue::UnitsTable(ut) => match lookup_money(money_entries(ut.table), time_key(t)) {
            Some(m) => if i64::MIN <= ut.units * m@ <= i64::MAX {
                Some(ut.units * m@)
            } else {
                None
            },
            None => None,
        },
    }
}

impl FlowValue {
    /// Whether the flow occurs at `time` per [`applies_at_spec`].
    pub fn applies_at(&self, time: &Time, flow: &Flow) -> (r: bool)
        ensures
            r == applies_at_spec(*flow, *time),
    {
        if time.precedes(&flow.start) || !time.precedes(&flow.end) {
            false
        } else {
            time.sub(&flow.start).even_freq(&flow.frequency)
        }
    }

    /// The gross amount of this policy at `time` against the category's
    /// current balance, per [`value_at_spec`].
    pub fn value_at(&self, time: &Time, _flow: &Flow, category: &CategoryValue) -> (r: Result<
        Money,
        EvalError,
    >)
        ensures
            r is Ok <==> value_at_spec(*self, *time, category.1@) is Some,
            r matches Ok(m) ==> Some(m@) == value_at_spec(*self, *time, category.1@),
            r matches Err(e) ==> (e == EvalError::TimeNotInTable <==> table_miss_spec(
                *self,
                *time,
            )),
            r matches Err(e) ==> (e == EvalError::Overflow || e == EvalError::TimeNotInTable),
    {
        match self {
            FlowValue::Fixed(f) => Ok(f.value),
            FlowValue::Rate(rf) => category.value().at_rate(rf.rate),
            FlowValue::Table(tf) => {
                proof {
                    lemma_money_entries(tf.table);
                    lemma_lookup_money(money_entries(tf.table), time_key(*time));
                }
                tf.table.value_at(time)
            },
            FlowValue::RateTable(rt) => {
                proof {
                    lemma_rate_entries(rt.table);
                    lemma_lookup_rate(rate_entries(rt.table), time_key(*time));
                }
                match rt.table.value_at(time) {
                    Ok(rate) => category.value().at_rate(rate),
                    Err(e) => Err(e),
                }
            },
            FlowValue::UnitsTable(ut) => {
                proof {
                    lemma_money_entries(ut.table);
                    lemma_lookup_money(money_entries(ut.table), time_key(*time));
                }
                match ut.table.value_at(time) {
                    Ok(per_unit) => match ut.units.checked_mul(per_unit.as_cents()) {
                        Some(total) => Ok(Money::from_cents(total)),
                        None => Err(EvalError::Overflow),
                    },
                    Err(e) => Err(e),
                }
            },
        }
    }
}

/// Whether a table-driven policy's table does not cover the queried
/// time: the one valuation failure that is not an overflow.
pub open spec fn table_miss_spec(fv: FlowValue, t: Time) -> bool {
    match fv {
        FlowValue::Fixed(_) => false,
        FlowValue::Rate(_) => false,
        FlowValue::Table(tf) => lookup_money(money_entries(tf.table), time_key(t)) is None,
        FlowValue::RateTable(rt) => lookup_rate(rate_entries(rt.table), time_key(t)) is None,
        FlowValue::UnitsTable(ut) => lookup_money(money_entries(ut.table), time_key(t)) is None,
    }
}

/// The transaction a flow produces at a time against a balance: the gross
/// amount run through the withholding policy, as `(net, taxable income,
/// tax withheld)`. Nothing when valuation or withholding fails.
pub open spec fn transaction_spec(flow: Flow, t: Time, balance: int) -> Option<(int, int, int)> {
    match value_at_spec(flow.value, t, balance) {
        Some(gross) => tax_spec(flow.tax_policy, gross),
        None => None,
    }
}

impl Flow {
    /// The transaction this flow produces at `time` against the current
    /// balance: net amount plus tax bookkeeping, per [`transaction_spec`].
    pub fn calculate_transaction(&self, category: &CategoryValue, time: &Time) -> (r: Result<
        Tx,
        EvalError,
    >)
        ensures
            r is Ok <==> transaction_spec(*self, *time, category.1@) is Some,
            r matches Ok(tx) ==> {
                &&& tx.time == *time
                &&& Some(
                    (tx.amount@, tx.tax_tx.taxable_income@, tx.tax_tx.tax_withheld@),
                ) == transaction_spec(*self, *time, category.1@)
            },
            r matches Err(e) ==> (e == EvalError::TimeNotInTable <==> table_miss_spec(
                self.value,
                *time,
            )),
    {
        let gross = match self.value.value_at(time, self, category) {
            Ok(g) => g,
            Err(e) => {
                return Err(e);
            },
        };
        let (net, tax_tx) = match self.tax_policy.calculate_tax(gross) {
            Ok(p) => p,
            Err(e) => {
                return Err(e);
            },
        };
        Ok(Tx { time: *time, amount: net, tax_tx })
    }
}

} // verus!
