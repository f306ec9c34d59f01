//! Event generators: a high-level event expanded into a set of
//! category-tagged flows before a simulation starts. Generation is pure:
//! it produces flows and touches no simulation state.

use crate::asset::{CategoryName, Money, Rate};
use crate::flow::{FixedFlow, Flow, FlowName, FlowValue, RateFlow};
use crate::tax::{TaxExempt, TaxPolicy};
use crate::tdiv;
use crate::time::{time_key, Frequency, Time, TimeNext, TimeRange};
use vstd::prelude::*;
use vstd::string::StringExecFns;

verus! {

/// The name of a configured event.
#[derive(Debug, Clone, PartialEq, Eq, PartialOrd, Ord, Hash)]
pub struct EventName(pub String);

/// Whether a flow is a once-off, tax-exempt fixed amount of `value`
/// posted to the month of `at` alone.
pub open spec fn once_off_fixed(f: Flow, at: Time, value: int) -> bool {
    &&& time_key(f.start) == time_key(at)
    &&& time_key(f.end) == time_key(at) + 1
    &&& f.frequency == Frequency::Monthly
    &&& (f.value matches FlowValue::Fixed(ff) && ff.value@ == value)
    &&& f.tax_policy is TaxExempt
}

/// A once-off transfer between two categories: a tax-exempt flow taking
/// `value` out of `source` and a matching one adding it to `target`, both
/// dated to the single month of `time`.
pub fn make_transaction(
    name: String,
    source: CategoryName,
    target: CategoryName,
    time: Time,
    value: Money,
) -> (r: Vec<(CategoryName, Flow)>)
    requires
        value@ != i64::MIN,
        time.can_next(),
    ensures
        r@.len() == 2,
        r@[0].0 == source,
        r@[1].0 == target,
        r@[0].1.name.0@ == name@ + " source"@,
        r@[1].1.name.0@ == name@ + " target"@,
        once_off_fixed(r@[0].1, time, -value@),
        once_off_fixed(r@[1].1, time, value@),
        r@[0].1.description@ == "Source side of once off transfer from "@ + source.0@ + " to "@
            + target.0@,
        r@[1].1.description@ == "Target side of once off transfer from "@ + source.0@ + " to "@
            + target.0@,
{
    let end = time.next();
    let mut source_desc = String::from_str("Source side of once off transfer from ");
    source_desc.append(source.0.as_str());
    source_desc.append(" to ");
    source_desc.append(target.0.as_str());
    let mut target_desc = String::from_str("Target side of once off transfer from ");
    target_desc.append(source.0.as_str());
    target_desc.append(" to ");
    target_desc.append(target.0.as_str());
    let source_flow = Flow {
        name: FlowName(name.clone().concat(" source")),
        description: source_desc,
        start: time,
        end,
        frequency: Frequency::Monthly,
        tax_policy: TaxPolicy::TaxExempt(TaxExempt {}),
        value: FlowValue::Fixed(FixedFlow { value: value.negate() }),
    };
    let target_flow = Flow {
        name: FlowName(name.concat(" target")),
        description: target_desc,
        start: time,
        end,
        frequency: Frequency::Monthly,
        tax_policy: TaxPolicy::TaxExempt(TaxExempt {}),
        value: FlowValue::Fixed(FixedFlow { value }),
    };
    let mut out: Vec<(CategoryName, Flow)> = Vec::new();
    out.push((source, source_flow));
    out.push((target, target_flow));
    out
}

/// A house bought with a mortgage: the purchase restructures four
/// category balances at the start month and leaves a monthly repayment
/// and an interest accrual running over the mortgage term.
pub struct HousePurchase {
    /// The name of the property; every generated flow's name starts with it.
    pub property_name: String,
    /// The mortgage term, from the purchase date.
    pub time_range: TimeRange<Time>,
    /// The annual mortgage rate.
    pub mortgage_rate: Rate,
    /// The full price of the house at purchase time.
    pub purchase_price: Money,
    /// Non-refundable costs of setting up the mortgage.
    pub setup_cost: Money,
    /// The down payment; the initial debt is the price minus it.
    pub down_payment: Money,
    /// Where the house's value is tracked.
    pub house_value_category: CategoryName,
    /// Where the mortgage debt is tracked (as a negative balance).
    pub mortgage_category: CategoryName,
    /// Where the down payment and setup cost are taken from.
    pub down_payment_category: CategoryName,
    /// Where the regular repayments are taken from.
    pub regular_payment_category: CategoryName,
}

impl HousePurchase {
    /// A once-off, tax-exempt fixed flow at the purchase month.
    fn start_tx(&self, name: FlowName, description: String, category_name: CategoryName, value: Money) -> (r: (
        CategoryName,
        Flow,
    ))
        requires
            self.time_range.start.can_next(),
        ensures
            r.0 == category_name,
            r.1.name == name,
            r.1.description == description,
            once_off_fixed(r.1, self.time_range.start, value@),
    {
        (
            category_name,
            Flow {
                name,
                description,
                start: self.time_range.start,
                end: self.time_range.start.next(),
                frequency: Frequency::Monthly,
                tax_policy: TaxPolicy::TaxExempt(TaxExempt {}),
                value: FlowValue::Fixed(FixedFlow { value }),
            },
        )
    }

    /// The flows of the purchase, given the monthly repayment amount
    /// (computed outside from the annuity formula): the four once-off
    /// setup flows at the purchase month, the repayment posted against
    /// both the payment source and the mortgage debt over the repayment
    /// window (one month after the term), and the monthly interest
    /// accrual on the outstanding mortgage balance.
    pub fn build_flows(&self, payment: Money) -> (r: Vec<(CategoryName, Flow)>)
        requires
            self.time_range.start.can_next(),
            self.time_range.end.can_next(),
            self.purchase_price@ != i64::MIN,
            self.down_payment@ != i64::MIN,
            self.setup_cost@ != i64::MIN,
            i64::MIN <= -self.purchase_price@ + self.down_payment@ <= i64::MAX,
        ensures
            r@.len() == 7,
            r@[0].0 == self.mortgage_category,
            r@[0].1.name.0@ == self.property_name@ + " initial mortgage setup"@,
            once_off_fixed(
                r@[0].1,
                self.time_range.start,
                self.down_payment@ - self.purchase_price@,
            ),
            r@[1].0 == self.house_value_category,
            r@[1].1.name.0@ == self.property_name@ + " initial house value"@,
            once_off_fixed(r@[1].1, self.time_range.start, self.purchase_price@),
            r@[2].0 == self.down_payment_category,
            r@[2].1.name.0@ == self.property_name@ + " down payment"@,
            once_off_fixed(r@[2].1, self.time_range.start, -self.down_payment@),
            r@[3].0 == self.down_payment_category,
            r@[3].1.name.0@ == self.property_name@ + " mortgage setup cost"@,
            once_off_fixed(r@[3].1, self.time_range.start, -self.setup_cost@),
            r@[4].0 == self.regular_payment_category,
            r@[4].1.name.0@ == self.property_name@ + " loan payment"@,
            repayment_flow_ok(r@[4].1, self.time_range, payment@),
            r@[5].0 == self.mortgage_category,
            r@[5].1.name.0@ == self.property_name@ + " loan payment"@,
            repayment_flow_ok(r@[5].1, self.time_range, payment@),
            r@[6].0 == self.mortgage_category,
            r@[6].1.name.0@ == self.property_name@ + " mortgage interest"@,
            interest_flow_ok(r@[6].1, self.time_range, tdiv(self.mortgage_rate@, 12)),
    {
        let mut out: Vec<(CategoryName, Flow)> = Vec::new();

        let loan_value = self.purchase_price.negate().add(self.down_payment);
        out.push(
            self.start_tx(
                FlowName(self.property_name.clone().concat(" initial mortgage setup")),
                String::from_str("The initial setup of the mortgage for ").concat(
                    self.property_name.as_str(),
                ),
                CategoryName(self.mortgage_category.0.clone()),
                loan_value,
            ),
        );
        out.push(
            self.start_tx(
                FlowName(self.property_name.clone().concat(" initial house value")),
                String::from_str("The initial purchase price of the house ").concat(
                    self.property_name.as_str(),
                ),
                CategoryName(self.house_value_category.0.clone()),
                self.purchase_price,
            ),
        );
        out.push(
            self.start_tx(
                FlowName(self.property_name.clone().concat(" down payment")),
                String::from_str("Down payment for house ").concat(self.property_name.as_str()),
                CategoryName(self.down_payment_category.0.clone()),
                self.down_payment.negate(),
            ),
        );
        out.push(
            self.start_tx(
                FlowName(self.property_name.clone().concat(" mortgage setup cost")),
                String::from_str("Costs involved with creating the mortgage ").concat(
                    self.property_name.as_str(),
                ),
                CategoryName(self.down_payment_category.0.clone()),
                self.setup_cost.negate(),
            ),
        );

        let pay_start = self.time_range.start.next();
        let pay_end = self.time_range.end.next();
        out.push(
            (
                CategoryName(self.regular_payment_category.0.clone()),
                Flow {
                    name: FlowName(self.property_name.clone().concat(" loan payment")),
                    description: String::from_str(
                        "The regular repayments for the loan on ",
                    ).concat(self.property_name.as_str()),
                    start: pay_start,
                    end: pay_end,
                    frequency: Frequency::Monthly,
                    tax_policy: TaxPolicy::TaxExempt(TaxExempt {}),
                    value: FlowValue::Fixed(FixedFlow { value: payment }),
                },
            ),
        );
        out.push(
            (
                CategoryName(self.mortgage_category.0.clone()),
                Flow {
                    name: FlowName(self.property_name.clone().concat(" loan payment")),
                    description: String::from_str(
                        "The regular repayments for the loan on ",
                    ).concat(self.property_name.as_str()),
                    start: pay_start,
                    end: pay_end,
                    frequency: Frequency::Monthly,
                    tax_policy: TaxPolicy::TaxExempt(TaxExempt {}),
                    value: FlowValue::Fixed(FixedFlow { value: payment }),
                },
            ),
        );
        out.push(
            (
                CategoryName(self.mortgage_category.0.clone()),
                Flow {
                    name: FlowName(self.property_name.clone().concat(" mortgage interest")),
                    description: String::from_str(
                        "The regular interest costs for the loan on ",
                    ).concat(self.property_name.as_str()),
                    start: pay_start,
                    end: pay_end,
                    frequency: Frequency::Monthly,
                    tax_policy: TaxPolicy::TaxExempt(TaxExempt {}),
                    value: FlowValue::Rate(RateFlow { rate: self.mortgage_rate.div(12) }),
                },
            ),
        );
        out
    }
}

/// Whether a flow accrues interest monthly at the given raw rate on the
/// category's running balance, over the window one month after the term.
pub open spec fn interest_flow_ok(f: Flow, term: TimeRange<Time>, rate_raw: int) -> bool {
    &&& time_key(f.start) == time_key(term.start) + 1
    &&& time_key(f.end) == time_key(term.end) + 1
    &&& f.frequency == Frequency::Monthly
    &&& f.tax_policy is TaxExempt
    &&& (f.value matches FlowValue::Rate(rf) && rf.rate@ == rate_raw)
}

/// Whether a flow posts a fixed monthly repayment over the window one
/// month after the mortgage term, tax-exempt.
pub open spec fn repayment_flow_ok(f: Flow, term: TimeRange<Time>, payment: int) -> bool {
    &&& time_key(f.start) == time_key(term.start) + 1
    &&& time_key(f.end) == time_key(term.end) + 1
    &&& f.frequency == Frequency::Monthly
    &&& f.tax_policy is TaxExempt
    &&& (f.value matches FlowValue::Fixed(ff) && ff.value@ == payment)
}

} // verus!
