use financial_planning::asset::{CategoryName, Money, Rate};
use financial_planning::events::{make_transaction, HousePurchase};
use financial_planning::flow::FlowValue;
use financial_planning::tax::TaxPolicy;
use financial_planning::time::{Frequency, Month, Time, TimeRange, Year};

#[test]
fn test_make_transaction() {
    let out = make_transaction(
        "move".to_string(),
        CategoryName("from".to_string()),
        CategoryName("to".to_string()),
        Time { year: Year(2021), month: Month::March },
        Money::from_dollars(250),
    );
    assert_eq!(out.len(), 2);

    let (src_cat, src_flow) = &out[0];
    assert_eq!(src_cat.0, "from");
    assert_eq!(src_flow.name.0, "move source");
    assert_eq!(src_flow.start, Time { year: Year(2021), month: Month::March });
    assert_eq!(src_flow.end, Time { year: Year(2021), month: Month::April });
    assert_eq!(src_flow.frequency, Frequency::Monthly);
    assert!(matches!(src_flow.tax_policy, TaxPolicy::TaxExempt(_)));
    match &src_flow.value {
        FlowValue::Fixed(f) => assert_eq!(f.value, Money::from_dollars(-250)),
        other => panic!("unexpected valuation policy {:?}", other),
    }

    let (dst_cat, dst_flow) = &out[1];
    assert_eq!(dst_cat.0, "to");
    assert_eq!(dst_flow.name.0, "move target");
    match &dst_flow.value {
        FlowValue::Fixed(f) => assert_eq!(f.value, Money::from_dollars(250)),
        other => panic!("unexpected valuation policy {:?}", other),
    }
}

#[test]
fn test_house_purchase_flows() {
    let purchase = HousePurchase {
        property_name: "home".to_string(),
        time_range: TimeRange {
            start: Time { year: Year(2021), month: Month::January },
            end: Time { year: Year(2051), month: Month::January },
        },
        mortgage_rate: Rate::parse("6.5%").unwrap(),
        purchase_price: Money::from_dollars(250000),
        setup_cost: Money::from_dollars(3000),
        down_payment: Money::from_dollars(50000),
        house_value_category: CategoryName("house".to_string()),
        mortgage_category: CategoryName("mortgage".to_string()),
        down_payment_category: CategoryName("savings".to_string()),
        regular_payment_category: CategoryName("checking".to_string()),
    };
    // the repayment itself comes from the annuity bridge outside the core
    let payment = Money::from_cents(126413);
    let out = purchase.build_flows(payment);
    assert_eq!(out.len(), 7);

    assert_eq!(out[0].0 .0, "mortgage");
    assert_eq!(out[0].1.name.0, "home initial mortgage setup");
    match &out[0].1.value {
        FlowValue::Fixed(f) => assert_eq!(f.value, Money::from_dollars(-200000)),
        other => panic!("unexpected valuation policy {:?}", other),
    }

    assert_eq!(out[1].0 .0, "house");
    match &out[1].1.value {
        FlowValue::Fixed(f) => assert_eq!(f.value, Money::from_dollars(250000)),
        other => panic!("unexpected valuation policy {:?}", other),
    }

    assert_eq!(out[2].0 .0, "savings");
    match &out[2].1.value {
        FlowValue::Fixed(f) => assert_eq!(f.value, Money::from_dollars(-50000)),
        other => panic!("unexpected valuation policy {:?}", other),
    }

    assert_eq!(out[3].0 .0, "savings");
    match &out[3].1.value {
        FlowValue::Fixed(f) => assert_eq!(f.value, Money::from_dollars(-3000)),
        other => panic!("unexpected valuation policy {:?}", other),
    }

    // the repayments run from one month after the purchase to one month
    // after the term's end
    assert_eq!(out[4].0 .0, "checking");
    assert_eq!(out[4].1.start, Time { year: Year(2021), month: Month::February });
    assert_eq!(out[4].1.end, Time { year: Year(2051), month: Month::February });
    match &out[4].1.value {
        FlowValue::Fixed(f) => assert_eq!(f.value, payment),
        other => panic!("unexpected valuation policy {:?}", other),
    }

    assert_eq!(out[5].0 .0, "mortgage");
    assert_eq!(out[5].1.name.0, "home loan payment");

    assert_eq!(out[6].0 .0, "mortgage");
    assert_eq!(out[6].1.name.0, "home mortgage interest");
    match &out[6].1.value {
        FlowValue::Rate(rf) => assert_eq!(rf.rate, Rate::parse("6.5%").unwrap().div(12)),
        other => panic!("unexpected valuation policy {:?}", other),
    }
}
