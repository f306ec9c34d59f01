use financial_planning::asset::{Category, CategoryName, Money, Rate};
use financial_planning::flow::{Flow, FlowValue};
use financial_planning::tax::{
    AnnualTaxPolicy, ConstantTaxPolicy, FixedRateTaxPolicy, NoWithholding, PartiallyTaxed,
    TaxAdjustment, TaxExempt, TaxPolicy, TaxSummary, TaxTx,
};
use financial_planning::time::{Frequency, TimeNext, Year};

fn verify_tax_adjustment(
    adjustment: &TaxAdjustment,
    flow: &Flow,
    year: Year,
    owed: Money,
    withheld: Money,
    delta: Money,
    rate: Rate,
) {
    assert_eq!(adjustment.owed, owed);
    assert_eq!(adjustment.withheld, withheld);

    // Delta is owed vs withheld (+ is a refund)
    assert_eq!(adjustment.delta, delta);

    // Rate is our taxable income vs owed
    assert_eq!(adjustment.effective_rate, rate);

    // We must make sure the flow is once-off and next year
    assert_eq!(flow.start.year, year.next());
    assert_eq!(flow.start.next(), flow.end);
    assert_eq!(flow.frequency, Frequency::Monthly);

    // We make sure that any flow made by tax is not taxed
    let tx = flow.tax_policy.tax_withheld(delta).unwrap();
    assert_eq!(tx.taxable_income, Money::from_dollars(0));
    assert_eq!(tx.tax_withheld, Money::from_dollars(0));

    let (net, tx) = flow.tax_policy.calculate_tax(delta).unwrap();
    assert_eq!(net, delta);
    assert_eq!(tx.taxable_income, Money::from_dollars(0));
    assert_eq!(tx.tax_withheld, Money::from_dollars(0));

    // Finally we make sure that the value is set correctly
    assert!(flow.value.applies_at(&flow.start, &flow));
    assert_eq!(
        flow.value
            .value_at(
                &flow.start,
                &flow,
                &Category::from_assets(CategoryName("unittest".to_string()), vec![]).value(),
            )
            .unwrap(),
        delta,
    );
}

#[test]
fn test_annual_generic() {
    // a policy whose outcome on this summary is owed $500 on a taxable
    // income of $1000: a 50% rate with $2000 of deductions
    let policy = AnnualTaxPolicy::FixedRate(FixedRateTaxPolicy::new(
        Rate::from_percent(50),
        Money::from_dollars(2000),
    ));

    let (adjustment, flow) = policy
        .calculate_adjustment(
            Year(2021),
            &TaxSummary {
                net_amount: Money::from_dollars(2000),
                taxable_income: Money::from_dollars(3000),
                tax_withheld: Money::from_dollars(600),
            },
        )
        .unwrap();

    verify_tax_adjustment(
        &adjustment,
        &flow,
        Year(2021),
        Money::from_dollars(500),
        // Withheld should be proxied through unchanged
        Money::from_dollars(600),
        // Delta is owed vs withheld (+ is a refund)
        Money::from_dollars(100),
        Rate::from_percent(50),
    );
}

#[test]
fn test_fixed_annual() {
    let p = AnnualTaxPolicy::FixedRate(FixedRateTaxPolicy::new(
        Rate::from_percent(20),
        Money::from_dollars(1000),
    ));

    let (adjustment, flow) = p
        .calculate_adjustment(
            Year(2021),
            &TaxSummary {
                net_amount: Money::from_dollars(5000),
                taxable_income: Money::from_dollars(10000),
                tax_withheld: Money::from_dollars(3000),
            },
        )
        .unwrap();

    verify_tax_adjustment(
        &adjustment,
        &flow,
        Year(2021),
        // Tax owed should be:
        //    owed = (taxable_income - deductions) * tax rate
        //    1800 = (10000 - 1000) * 20%
        Money::from_dollars(1800),
        // Withheld should be proxied through unchanged
        Money::from_dollars(3000),
        // Delta is owed vs withheld (+ is a refund)
        Money::from_dollars(1200),
        // Rate should be calculated back to the same
        Rate::from_percent(20),
    );
}

#[test]
fn test_tax_summary() {
    let mut s = TaxSummary::new();

    s.apply_tx(
        &TaxTx {
            taxable_income: Money::from_dollars(100),
            tax_withheld: Money::from_dollars(10),
        },
        Money::from_dollars(1000),
    );
    s.apply_tx(
        &TaxTx {
            taxable_income: Money::from_dollars(200),
            tax_withheld: Money::from_dollars(20),
        },
        Money::from_dollars(2000),
    );

    assert_eq!(s.net_amount, Money::from_dollars(3000));
    assert_eq!(s.taxable_income, Money::from_dollars(300));
    assert_eq!(s.tax_withheld, Money::from_dollars(30));
}

fn test_tax_policy(policy: TaxPolicy, gross: Money, taxable: Money, withheld: Money, net: Money) {
    let tx = policy.tax_withheld(gross).unwrap();
    assert_eq!(tx.taxable_income, taxable);
    assert_eq!(tx.tax_withheld, withheld);

    let (net_out, tx) = policy.calculate_tax(gross).unwrap();
    assert_eq!(tx.taxable_income, taxable);
    assert_eq!(tx.tax_withheld, withheld);
    assert_eq!(net_out, net);

    let (net_out, tx) = policy.calculate_tax(Money::from_dollars(0)).unwrap();
    assert_eq!(tx.taxable_income, Money::from_dollars(0));
    assert_eq!(tx.tax_withheld, Money::from_dollars(0));
    assert_eq!(net_out, Money::from_dollars(0));
}

#[test]
fn test_no_withholding() {
    test_tax_policy(
        TaxPolicy::NoWithholding(NoWithholding {}),
        Money::from_dollars(1000), // gross
        Money::from_dollars(1000), // taxable
        Money::from_dollars(0),    // withheld
        Money::from_dollars(1000), // net
    );
}

#[test]
fn test_tax_exempt() {
    test_tax_policy(
        TaxPolicy::TaxExempt(TaxExempt {}),
        Money::from_dollars(2000), // gross
        Money::from_dollars(0),    // taxable
        Money::from_dollars(0),    // withheld
        Money::from_dollars(2000), // net
    );
}

#[test]
fn test_constant_tax() {
    test_tax_policy(
        TaxPolicy::Constant(ConstantTaxPolicy { rate: Rate::from_percent(25) }),
        Money::from_dollars(1000), // gross
        Money::from_dollars(1000), // taxable
        Money::from_dollars(250),  // withheld
        Money::from_dollars(750),  // net
    );
}

#[test]
fn test_partially_taxed() {
    // 40% of the gross is taxable, withheld at 25% of that
    test_tax_policy(
        TaxPolicy::PartiallyTaxed(PartiallyTaxed {
            taxed_proportion: Rate::from_percent(40),
            withholding_rate: Rate::from_percent(25),
        }),
        Money::from_dollars(1000), // gross
        Money::from_dollars(400),  // taxable
        Money::from_dollars(100),  // withheld
        Money::from_dollars(900),  // net
    );
}

#[test]
fn test_adjustment_zero_taxable_income_has_zero_rate() {
    let p = AnnualTaxPolicy::FixedRate(FixedRateTaxPolicy::new(
        Rate::from_percent(35),
        Money::from_dollars(3000),
    ));
    let (adjustment, flow) = p
        .calculate_adjustment(
            Year(2023),
            &TaxSummary {
                net_amount: Money::from_dollars(800),
                taxable_income: Money::from_dollars(825),
                tax_withheld: Money::from_cents(8250),
            },
        )
        .unwrap();
    assert_eq!(adjustment.owed, Money::from_dollars(0));
    assert_eq!(adjustment.effective_rate, Rate::from_percent(0));
    assert_eq!(adjustment.delta, Money::from_cents(8250));
    assert!(matches!(flow.value, FlowValue::Fixed(_)));
}
