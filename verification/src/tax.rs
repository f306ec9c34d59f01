//! Per-transaction tax withholding policies, yearly tax aggregation, and
//! the annual reconciliation policy that turns a year's withholding into
//! next year's refund or debt.

use crate::asset::{Money, Rate};
use crate::errors::EvalError;
use crate::flow::{rate_apply_spec, FixedFlow, Flow, FlowName, FlowValue};
use crate::tdiv;
use crate::text::{dec_digits, push_digits};
use crate::time::{Frequency, Month, Time, Year};
use vstd::prelude::*;
use vstd::string::StringExecFns;

verus! {

/// The tax bookkeeping of one transaction: how much of its gross amount
/// counts as taxable income and how much tax was withheld from it.
#[derive(Debug, Clone)]
pub struct TaxTx {
    pub taxable_income: Money,
    pub tax_withheld: Money,
}

/// A policy that withholds nothing: the whole gross amount is taxable
/// income, and nothing is taken from it.
#[derive(Debug, Clone)]
pub struct NoWithholding {}

/// A policy for amounts outside tax accounting altogether (internal
/// transfers, setup transactions): no taxable income, no withholding.
#[derive(Debug, Clone)]
pub struct TaxExempt {}

/// A policy withholding a constant fraction of the gross amount, all of
/// which is taxable income.
#[derive(Debug, Clone)]
pub struct ConstantTaxPolicy {
    pub rate: Rate,
}

/// A policy where only a proportion of the gross amount is taxable, and
/// tax is withheld at a rate on that taxable part.
#[derive(Debug, Clone)]
pub struct PartiallyTaxed {
    pub taxed_proportion: Rate,
    pub withholding_rate: Rate,
}

/// The closed set of per-flow withholding policies.
#[derive(Debug, Clone)]
pub enum TaxPolicy {
    NoWithholding(NoWithholding),
    TaxExempt(TaxExempt),
    Constant(ConstantTaxPolicy),
    PartiallyTaxed(PartiallyTaxed),
}

/// The taxable income and withheld tax a policy derives from a gross
/// amount, or nothing when a rate application overflows.
pub open spec fn withheld_spec(p: TaxPolicy, gross: int) -> Option<(int, int)> {
    match p {
        TaxPolicy::NoWithholding(_) => Some((gross, 0)),
        TaxPolicy::TaxExempt(_) => Some((0, 0)),
        TaxPolicy::Constant(c) => match rate_apply_spec(gross, c.rate@) {
            Some(wh) => Some((gross, wh)),
            None => None,
        },
        TaxPolicy::PartiallyTaxed(pt) => match rate_apply_spec(gross, pt.taxed_proportion@) {
            Some(ti) => match rate_apply_spec(ti, pt.withholding_rate@) {
                Some(wh) => Some((ti, wh)),
                None => None,
            },
            None => None,
        },
    }
}

/// The net amount, taxable income and withheld tax a policy derives from
/// a gross amount: the net is the gross minus the withheld tax.
pub open spec fn tax_spec(p: TaxPolicy, gross: int) -> Option<(int, int, int)> {
    match withheld_spec(p, gross) {
        Some((ti, wh)) => if i64::MIN <= gross - wh <= i64::MAX {
            Some((gross - wh, ti, wh))
        } else {
            None
        },
        None => None,
    }
}

impl TaxPolicy {
    /// The tax bookkeeping this policy derives from a gross amount, per
    /// [`withheld_spec`]; fails only on rate-application overflow.
    pub fn tax_withheld(&self, gross: Money) -> (r: Result<TaxTx, EvalError>)
        ensures
            r is Ok <==> withheld_spec(*self, gross@) is Some,
            r matches Ok(tx) ==> Some((tx.taxable_income@, tx.tax_withheld@)) == withheld_spec(
                *self,
                gross@,
            ),
            r matches Err(e) ==> e == EvalError::Overflow,
    {
        match self {
            TaxPolicy::NoWithholding(_) => Ok(
                TaxTx { taxable_income: gross, tax_withheld: Money::from_cents(0) },
            ),
            TaxPolicy::TaxExempt(_) => Ok(
                TaxTx {
                    taxable_income: Money::from_cents(0),
                    tax_withheld: Money::from_cents(0),
                },
            ),
            TaxPolicy::Constant(c) => match gross.at_rate(c.rate) {
                Ok(wh) => Ok(TaxTx { taxable_income: gross, tax_withheld: wh }),
                Err(e) => Err(e),
            },
            TaxPolicy::PartiallyTaxed(pt) => match gross.at_rate(pt.taxed_proportion) {
                Ok(ti) => match ti.at_rate(pt.withholding_rate) {
                    Ok(wh) => Ok(TaxTx { taxable_income: ti, tax_withheld: wh }),
                    Err(e) => Err(e),
                },
                Err(e) => Err(e),
            },
        }
    }

    /// A gross amount turned into its net amount and tax bookkeeping, per
    /// [`tax_spec`]: the net is the gross minus the withheld tax.
    pub fn calculate_tax(&self, gross: Money) -> (r: Result<(Money, TaxTx), EvalError>)
        ensures
            r is Ok <==> tax_spec(*self, gross@) is Some,
            r matches Ok(p) ==> Some((p.0@, p.1.taxable_income@, p.1.tax_withheld@)) == tax_spec(
                *self,
                gross@,
            ),
            r matches Err(e) ==> e == EvalError::Overflow,
    {
        let tx = match self.tax_withheld(gross) {
            Ok(tx) => tx,
            Err(e) => {
                return Err(e);
            },
        };
        match gross.checked_sub(tx.tax_withheld) {
            Some(net) => Ok((net, tx)),
            None => Err(EvalError::Overflow),
        }
    }
}

/// The running totals of a simulated year: all net amounts, taxable
/// income and withheld tax across every transaction of every category.
#[derive(Debug, Clone)]
pub struct TaxSummary {
    pub net_amount: Money,
    pub taxable_income: Money,
    pub tax_withheld: Money,
}

impl TaxSummary {
    /// An empty summary: all totals zero.
    pub fn new() -> (r: Self)
        ensures
            r.net_amount@ == 0,
            r.taxable_income@ == 0,
            r.tax_withheld@ == 0,
    {
        TaxSummary {
            net_amount: Money::from_cents(0),
            taxable_income: Money::from_cents(0),
            tax_withheld: Money::from_cents(0),
        }
    }

    /// Fold one transaction's bookkeeping and net amount into the totals.
    pub fn apply_tx(&mut self, tx: &TaxTx, net: Money)
        requires
            i64::MIN <= old(self).taxable_income@ + tx.taxable_income@ <= i64::MAX,
            i64::MIN <= old(self).tax_withheld@ + tx.tax_withheld@ <= i64::MAX,
            i64::MIN <= old(self).net_amount@ + net@ <= i64::MAX,
        ensures
            final(self).taxable_income@ == old(self).taxable_income@ + tx.taxable_income@,
            final(self).tax_withheld@ == old(self).tax_withheld@ + tx.tax_withheld@,
            final(self).net_amount@ == old(self).net_amount@ + net@,
    {
        self.taxable_income = self.taxable_income.add(tx.taxable_income);
        self.tax_withheld = self.tax_withheld.add(tx.tax_withheld);
        self.net_amount = self.net_amount.add(net);
    }
}

/// One year's reconciliation outcome: the tax owed, what was withheld,
/// their difference (positive means a refund), and the effective rate.
#[derive(Debug, Clone)]
pub struct TaxAdjustment {
    pub owed: Money,
    pub withheld: Money,
    pub delta: Money,
    pub effective_rate: Rate,
}

/// A reconciliation policy taxing income above a standard deduction at a
/// single flat rate.
#[derive(Debug, Clone)]
pub struct FixedRateTaxPolicy {
    pub rate: Rate,
    pub deductions: Money,
}

impl FixedRateTaxPolicy {
    /// A flat-rate policy from its rate and standard deduction.
    pub fn new(rate: Rate, deductions: Money) -> (r: Self)
        ensures
            r.rate == rate,
            r.deductions == deductions,
    {
        Self { rate, deductions }
    }
}

/// The closed set of annual reconciliation policies.
#[derive(Debug, Clone)]
pub enum AnnualTaxPolicy {
    FixedRate(FixedRateTaxPolicy),
}

/// The taxable income a policy derives from a year's summary. For the
/// flat-rate policy: the summary's taxable income less the deduction,
/// floored at zero.
pub open spec fn taxable_income_spec(p: AnnualTaxPolicy, taxable_income: int) -> Option<int> {
    match p {
        AnnualTaxPolicy::FixedRate(f) => {
            let diff = taxable_income - f.deductions@;
            if i64::MIN <= diff <= i64::MAX {
                Some(
                    if diff >= 0 {
                        diff
                    } else {
                        0
                    },
                )
            } else {
                None
            }
        },
    }
}

/// The tax a policy says is owed on a taxable income. For the flat-rate
/// policy: the income at the policy's rate.
pub open spec fn owed_spec(p: AnnualTaxPolicy, taxable_income: int) -> Option<int> {
    match p {
        AnnualTaxPolicy::FixedRate(f) => rate_apply_spec(taxable_income, f.rate@),
    }
}

/// A year's reconciliation: `(owed, withheld, delta, effective rate)`.
/// The delta is withheld minus owed (positive means a refund); the
/// effective rate is owed over taxable income, and zero when the taxable
/// income is zero.
pub open spec fn adjustment_spec(p: AnnualTaxPolicy, taxable_income: int, tax_withheld: int) -> Option<
    (int, int, int, int),
> {
    match taxable_income_spec(p, taxable_income) {
        Some(ti) => match owed_spec(p, ti) {
            Some(owed) => {
                let wh = tax_withheld;
                if i64::MIN <= wh - owed <= i64::MAX {
                    if ti == 0 {
                        Some((owed, wh, wh - owed, 0))
                    } else if i64::MIN <= owed * 100000000 <= i64::MAX && !(owed * 100000000
                        == i64::MIN && ti == -1) {
                        Some((owed, wh, wh - owed, tdiv(owed * 100000000, ti)))
                    } else {
                        None
                    }
                } else {
                    None
                }
            },
            None => None,
        },
        None => None,
    }
}

impl AnnualTaxPolicy {
    /// The year's taxable income per [`taxable_income_spec`]; fails only
    /// on overflow.
    pub fn calculate_taxable_income(&self, summary: &TaxSummary) -> (r: Result<Money, EvalError>)
        ensures
            r is Ok <==> taxable_income_spec(*self, summary.taxable_income@) is Some,
            r matches Ok(m) ==> Some(m@) == taxable_income_spec(*self, summary.taxable_income@),
            r matches Err(e) ==> e == EvalError::Overflow,
    {
        match self {
            AnnualTaxPolicy::FixedRate(f) => match summary.taxable_income.checked_sub(
                f.deductions,
            ) {
                Some(diff) => {
                    if diff.as_cents() >= 0 {
                        Ok(diff)
                    } else {
                        Ok(Money::from_cents(0))
                    }
                },
                None => Err(EvalError::Overflow),
            },
        }
    }

    /// The tax owed on a taxable income per [`owed_spec`]; fails only on
    /// overflow.
    pub fn calculate_owed(&self, taxable_income: Money, summary: &TaxSummary) -> (r: Result<
        Money,
        EvalError,
    >)
        ensures
            r is Ok <==> owed_spec(*self, taxable_income@) is Some,
            r matches Ok(m) ==> Some(m@) == owed_spec(*self, taxable_income@),
            r matches Err(e) ==> e == EvalError::Overflow,
    {
        match self {
            AnnualTaxPolicy::FixedRate(f) => taxable_income.at_rate(f.rate),
        }
    }

    /// Reconcile one year: compute the adjustment per [`adjustment_spec`]
    /// and a synthetic once-off, tax-exempt flow named "Tax adjustment",
    /// dated to April of the following year, that carries the delta into
    /// the next simulated year.
    pub fn calculate_adjustment(&self, year: Year, summary: &TaxSummary) -> (r: Result<
        (TaxAdjustment, Flow),
        EvalError,
    >)
        requires
            year.0 < u32::MAX,
        ensures
            r is Ok <==> adjustment_spec(*self, summary.taxable_income@, summary.tax_withheld@) is Some,
            r matches Ok(p) ==> {
                &&& Some(
                    (p.0.owed@, p.0.withheld@, p.0.delta@, p.0.effective_rate@),
                ) == adjustment_spec(*self, summary.taxable_income@, summary.tax_withheld@)
                &&& p.1.name.0@ == "Tax adjustment"@
                &&& p.1.description@ == "Estimated tax refund/debt from "@ + dec_digits(
                    year.0 as nat,
                )
                &&& p.1.start == (Time { year: Year((year.0 + 1) as u32), month: Month::April })
                &&& p.1.end == (Time { year: Year((year.0 + 1) as u32), month: Month::May })
                &&& p.1.frequency == Frequency::Monthly
                &&& (p.1.value matches FlowValue::Fixed(f) && f.value == p.0.delta)
                &&& p.1.tax_policy is TaxExempt
            },
            r matches Err(e) ==> e == EvalError::Overflow,
    {
        let taxable_income = match self.calculate_taxable_income(summary) {
            Ok(ti) => ti,
            Err(e) => {
                return Err(e);
            },
        };
        let tax_owed = match self.calculate_owed(taxable_income, summary) {
            Ok(o) => o,
            Err(e) => {
                return Err(e);
            },
        };
        let delta = match summary.tax_withheld.checked_sub(tax_owed) {
            Some(d) => d,
            None => {
                return Err(EvalError::Overflow);
            },
        };
        let effective_rate = if taxable_income.as_cents() == 0 {
            Rate::from_percent(0)
        } else {
            match tax_owed.checked_div(taxable_income) {
                Some(r) => r,
                None => {
                    return Err(EvalError::Overflow);
                },
            }
        };
        let mut description = String::from_str("Estimated tax refund/debt from ");
        push_digits(year.0 as u64, &mut description);
        let next_year = Year(year.0 + 1);
        Ok(
            (
                TaxAdjustment { owed: tax_owed, withheld: summary.tax_withheld, delta, effective_rate },
                Flow {
                    name: FlowName(String::from_str("Tax adjustment")),
                    description,
                    start: Time { year: next_year, month: Month::April },
                    end: Time { year: next_year, month: Month::May },
                    frequency: Frequency::Monthly,
                    value: FlowValue::Fixed(FixedFlow { value: delta }),
                    tax_policy: TaxPolicy::TaxExempt(TaxExempt {}),
                },
            ),
        )
    }
}

} // verus!
