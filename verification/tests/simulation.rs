use financial_planning::asset::{Asset, AssetName, Category, CategoryName, Money, Rate};
use financial_planning::errors::ModelError;
use financial_planning::flow::{FixedFlow, Flow, FlowName, FlowValue};
use financial_planning::model::{CategoryModel, Model, MonthlyReport, YearlyReport};
use financial_planning::tax::{
    AnnualTaxPolicy, ConstantTaxPolicy, FixedRateTaxPolicy, TaxAdjustment, TaxExempt, TaxPolicy,
    TaxSummary,
};
use financial_planning::time::{Frequency, Month, Time, TimeNext, TimeRange, Year};

fn test_flow(n: i64, month: Month, frequency: Frequency, value: Money) -> Flow {
    let start = Time { year: Year(2021), month };
    Flow {
        name: FlowName(n.to_string()),
        description: "A unit test flow".to_string(),
        start,
        end: Time { year: Year(2023), month: start.month },
        frequency,
        value: FlowValue::Fixed(FixedFlow { value }),
        tax_policy: TaxPolicy::Constant(ConstantTaxPolicy { rate: Rate::from_percent(10) }),
    }
}

fn verify_year(
    mut out: Vec<(Month, MonthlyReport)>,
    initial_value: Money,
    tax_delta: Option<Money>,
    values: Vec<(Vec<i64>, Vec<&'static str>)>,
) {
    let mut start = Month::January;
    let mut value = initial_value;
    for (n, (new_values, flow_names)) in values.into_iter().enumerate() {
        let pos = out
            .iter()
            .position(|p| p.0 == start)
            .expect("missing month in report");
        let report = out.remove(pos).1;

        let flow_values: Vec<i64> =
            report.transactions.iter().map(|f| f.1.amount.as_cents()).collect();

        let mut out_flow_names: Vec<String> =
            report.transactions.iter().map(|f| f.0 .0.clone()).collect();
        out_flow_names.sort();

        let mut names: Vec<String> = flow_names.into_iter().map(|f| f.to_string()).collect();

        let new_values: Vec<i64> = new_values
            .into_iter()
            .map(|v| {
                Money::from_dollars(v)
                    .at_rate(Rate::from_percent(90))
                    .unwrap()
                    .as_cents()
            })
            .collect();
        let mut delta = Money::from_cents(new_values.iter().sum());
        if start == Month::April {
            if let Some(tax_delta) = &tax_delta {
                names.push("Tax adjustment".to_string());
                delta = delta.add(*tax_delta);
            }
        }
        names.sort();

        assert_eq!(
            (n, start, &out_flow_names),
            (n, start, &names),
            "flow names differed; values were {:?}",
            flow_values,
        );

        value = value.add(delta);
        assert_eq!((n, start, report.value), (n, start, value));
        start = start.next();
    }
    assert!(out.is_empty(), "months remained in report after test");
}

fn c1_year() -> Vec<(Vec<i64>, Vec<&'static str>)> {
    vec![
        (vec![1, 20], vec!["0", "1"]),            // Jan
        (vec![1, 20], vec!["0", "1"]),            // Feb
        (vec![1, 20, 300], vec!["0", "1", "2"]),  // Mar
        (vec![1, 20], vec!["0", "1"]),            // Apr
        (vec![1, 20], vec!["0", "1"]),            // May
        (vec![1, 20, 300], vec!["0", "1", "2"]),  // Jun
        (vec![1, 20, 4000], vec!["0", "1", "3"]), // Jul
        (vec![1, 20], vec!["0", "1"]),            // Aug
        (vec![1, 20, 300], vec!["0", "1", "2"]),  // Sep
        (vec![1, 20], vec!["0", "1"]),            // Oct
        (vec![1, 20], vec!["0", "1"]),            // Nov
        (vec![1, 20, 300], vec!["0", "1", "2"]),  // Dec
    ]
}

fn c1_yearly(tax_value: i64) -> Money {
    Money::from_dollars(1 * 12 + 20 * 12 + 300 * 4 + 4000 + tax_value)
}

fn c2_yearly(first_year: bool) -> Money {
    if first_year {
        Money::from_dollars(5 * 11 + 60 * 10 + 700 * 3 + 8000)
    } else {
        Money::from_dollars(5 * 12 + 60 * 12 + 700 * 4 + 8000)
    }
}

#[test]
fn test_model() {
    let c1 = Category::from_assets(
        CategoryName("c1".to_string()),
        vec![Asset { name: AssetName("a1".to_string()), value: Money::from_dollars(123) }],
    );
    let c2 = Category::from_assets(
        CategoryName("c2".to_string()),
        vec![Asset { name: AssetName("a1".to_string()), value: Money::from_dollars(456) }],
    );

    let tax_policy = AnnualTaxPolicy::FixedRate(FixedRateTaxPolicy::new(
        Rate::from_percent(35),
        Money::from_dollars(3000),
    ));

    let flows = vec![
        (
            c1.name.clone(),
            vec![
                test_flow(0, Month::January, Frequency::Monthly, Money::from_dollars(1)),
                test_flow(1, Month::January, Frequency::Monthly, Money::from_dollars(20)),
                test_flow(2, Month::March, Frequency::Quarterly, Money::from_dollars(300)),
                test_flow(3, Month::July, Frequency::Yearly, Money::from_dollars(4000)),
            ],
        ),
        (
            c2.name.clone(),
            vec![
                test_flow(4, Month::February, Frequency::Monthly, Money::from_dollars(5)),
                test_flow(5, Month::March, Frequency::Monthly, Money::from_dollars(60)),
                test_flow(6, Month::May, Frequency::Quarterly, Money::from_dollars(700)),
                test_flow(7, Month::July, Frequency::Yearly, Money::from_dollars(8000)),
            ],
        ),
    ];

    let tax_category = c1.name.clone();
    let mut model = Model::new(flows, vec![c1.clone(), c2.clone()], tax_policy, tax_category)
        .expect("failed to build model");

    let mut out = model
        .run(TimeRange { start: Year(2020), end: Year(2024) })
        .expect("failed to run model");

    let mut empty_year: Vec<(Vec<i64>, Vec<&'static str>)> = vec![];
    for _ in 0..12 {
        empty_year.push((vec![], vec![]));
    }

    let withheld_rate = Rate::from_percent(10);
    let net_rate = withheld_rate.inverse();

    let tax_2021 = Money::from_cents(-300175);
    let tax_2022 = Money::from_cents(-320800);

    // Expected outcomes per year, oldest first:
    //   (tax delta applied in April, expected tax summary, expected
    //    adjustment, per-category (starting value, monthly deltas)).
    let values: Vec<(
        Year,
        Option<Money>,
        TaxSummary,
        TaxAdjustment,
        Vec<(CategoryName, Money, Vec<(Vec<i64>, Vec<&'static str>)>)>,
    )> = vec![
        (
            Year(2020),
            None,
            TaxSummary {
                net_amount: Money::from_dollars(0),
                taxable_income: Money::from_dollars(0),
                tax_withheld: Money::from_dollars(0),
            },
            TaxAdjustment {
                owed: Money::from_dollars(0),
                withheld: Money::from_dollars(0),
                delta: Money::from_dollars(0),
                effective_rate: Rate::from_percent(0),
            },
            vec![
                (c1.name.clone(), Money::from_dollars(123), empty_year.clone()),
                (c2.name.clone(), Money::from_dollars(456), empty_year.clone()),
            ],
        ),
        (
            Year(2021),
            Some(Money::from_dollars(0)),
            TaxSummary {
                net_amount: c1_yearly(0).add(c2_yearly(true)).at_rate(net_rate).unwrap(),
                taxable_income: c1_yearly(0).add(c2_yearly(true)),
                tax_withheld: c1_yearly(0).add(c2_yearly(true)).at_rate(withheld_rate).unwrap(),
            },
            // Tax from 2021 should be c1_yearly ($5,452) + c2_yearly ($10,755)
            // = $16,207 gross income. We have $3,000 in deductions so taxable
            // income is $13,207. Taxed at 35% we owe $4,622.45 in tax. We
            // withhold at 10% so we have withheld $1620.7 and the delta for
            // refund/debt is $3,001.75
            TaxAdjustment {
                owed: Money::from_cents(462245),
                withheld: Money::from_cents(162070),
                delta: tax_2021,
                effective_rate: Rate::from_percent(35),
            },
            vec![
                (c1.name.clone(), Money::from_dollars(123), c1_year()),
                (
                    c2.name.clone(),
                    Money::from_dollars(456),
                    vec![
                        (vec![], vec![]),                         // Jan
                        (vec![5], vec!["4"]),                     // Feb
                        (vec![5, 60], vec!["4", "5"]),            // Mar
                        (vec![5, 60], vec!["4", "5"]),            // Apr
                        (vec![5, 60, 700], vec!["4", "5", "6"]),  // May
                        (vec![5, 60], vec!["4", "5"]),            // Jun
                        (vec![5, 60, 8000], vec!["4", "5", "7"]), // Jul
                        (vec![5, 60, 700], vec!["4", "5", "6"]),  // Aug
                        (vec![5, 60], vec!["4", "5"]),            // Sep
                        (vec![5, 60], vec!["4", "5"]),            // Oct
                        (vec![5, 60, 700], vec!["4", "5", "6"]),  // Nov
                        (vec![5, 60], vec!["4", "5"]),            // Dec
                    ],
                ),
            ],
        ),
        (
            Year(2022),
            Some(tax_2021),
            TaxSummary {
                net_amount: c1_yearly(0)
                    .add(c2_yearly(false))
                    .at_rate(net_rate)
                    .unwrap()
                    .add(tax_2021),
                taxable_income: c1_yearly(0).add(c2_yearly(false)),
                tax_withheld: c1_yearly(0).add(c2_yearly(false)).at_rate(withheld_rate).unwrap(),
            },
            // Tax from 2022 should be c1_yearly ($5,452) + c2_yearly ($11,580)
            // = $17,032 gross income. We have $3,000 in deductions so taxable
            // income is $14,032. Taxed at 35% we owe $4,911.20 in tax. We
            // withhold at 10% so we have withheld $1703.2 and the delta for
            // refund/debt is $3,208
            TaxAdjustment {
                owed: Money::from_cents(491120),
                withheld: Money::from_cents(170320),
                delta: tax_2022,
                effective_rate: Rate::from_percent(35),
            },
            vec![
                (
                    c1.name.clone(),
                    Money::from_dollars(123).add(c1_yearly(0).at_rate(net_rate).unwrap()),
                    c1_year(),
                ),
                (
                    c2.name.clone(),
                    Money::from_dollars(456).add(c2_yearly(true).at_rate(net_rate).unwrap()),
                    vec![
                        (vec![5, 60], vec!["4", "5"]),            // Jan
                        (vec![5, 60, 700], vec!["4", "5", "6"]),  // Feb
                        (vec![5, 60], vec!["4", "5"]),            // Mar
                        (vec![5, 60], vec!["4", "5"]),            // Apr
                        (vec![5, 60, 700], vec!["4", "5", "6"]),  // May
                        (vec![5, 60], vec!["4", "5"]),            // Jun
                        (vec![5, 60, 8000], vec!["4", "5", "7"]), // Jul
                        (vec![5, 60, 700], vec!["4", "5", "6"]),  // Aug
                        (vec![5, 60], vec!["4", "5"]),            // Sep
                        (vec![5, 60], vec!["4", "5"]),            // Oct
                        (vec![5, 60, 700], vec!["4", "5", "6"]),  // Nov
                        (vec![5, 60], vec!["4", "5"]),            // Dec
                    ],
                ),
            ],
        ),
        (
            Year(2023),
            Some(tax_2022),
            TaxSummary {
                net_amount: Money::from_dollars(5 + 60 + 60 + 700)
                    .at_rate(net_rate)
                    .unwrap()
                    .add(tax_2022),
                taxable_income: Money::from_dollars(5 + 60 + 60 + 700),
                tax_withheld: Money::from_dollars(5 + 60 + 60 + 700)
                    .at_rate(withheld_rate)
                    .unwrap(),
            },
            // Tax from 2023 should be c1_yearly ($0) + c2_yearly ($825) = $825
            // gross income. We have $3,000 in deductions so taxable income is
            // $0. Taxed at 35% we owe $0 in tax. We withhold at 10% so we have
            // withheld $82.50 and the delta for refund/debt is $82.50
            TaxAdjustment {
                owed: Money::from_cents(0),
                withheld: Money::from_cents(8250),
                delta: Money::from_cents(8250),
                effective_rate: Rate::from_percent(0),
            },
            vec![
                (
                    c1.name.clone(),
                    Money::from_dollars(123)
                        .add(c1_yearly(0).at_rate(net_rate).unwrap())
                        .add(c1_yearly(0).at_rate(net_rate).unwrap())
                        .add(tax_2021),
                    empty_year.clone(),
                ),
                (
                    c2.name.clone(),
                    Money::from_dollars(456)
                        .add(c2_yearly(true).at_rate(net_rate).unwrap())
                        .add(c2_yearly(false).at_rate(net_rate).unwrap()),
                    vec![
                        (vec![5, 60], vec!["4", "5"]),   // Jan
                        (vec![60, 700], vec!["5", "6"]), // Feb
                        (vec![], vec![]),                // Mar
                        (vec![], vec![]),                // Apr
                        (vec![], vec![]),                // May
                        (vec![], vec![]),                // Jun
                        (vec![], vec![]),                // Jul
                        (vec![], vec![]),                // Aug
                        (vec![], vec![]),                // Sep
                        (vec![], vec![]),                // Oct
                        (vec![], vec![]),                // Nov
                        (vec![], vec![]),                // Dec
                    ],
                ),
            ],
        ),
    ];

    for (year, prev_tax, tax_summary, tax_adjustment, data) in values {
        let pos = out
            .years
            .iter()
            .position(|p| p.0 == year)
            .expect("missing year in report");
        let mut report: YearlyReport = out.years.remove(pos).1;

        for (cat_name, start_value, deltas) in data {
            let cpos = report
                .category_summary
                .iter()
                .position(|p| p.0 == cat_name)
                .expect("missing category in yearly report");
            let cat_report = report.category_summary.remove(cpos).1;
            let tax = if cat_name == c1.name { prev_tax } else { None };
            verify_year(cat_report, start_value, tax, deltas);
        }
        assert!(report.category_summary.is_empty());

        assert_eq!((year, report.tax_summary.net_amount), (year, tax_summary.net_amount));
        assert_eq!(
            (year, report.tax_summary.taxable_income),
            (year, tax_summary.taxable_income)
        );
        assert_eq!((year, report.tax_summary.tax_withheld), (year, tax_summary.tax_withheld));

        assert_eq!((year, report.tax_adjustment.owed), (year, tax_adjustment.owed));
        assert_eq!((year, report.tax_adjustment.withheld), (year, tax_adjustment.withheld));
        assert_eq!((year, report.tax_adjustment.delta), (year, tax_adjustment.delta));
        assert_eq!(
            (year, report.tax_adjustment.effective_rate),
            (year, tax_adjustment.effective_rate)
        );
    }
    assert!(out.years.is_empty());
}

#[test]
fn test_category_model() {
    let cat = Category::from_assets(
        CategoryName("unittest".to_string()),
        vec![Asset {
            name: AssetName("unit test asset".to_string()),
            value: Money::from_dollars(123),
        }],
    );

    let mut distant_flow = test_flow(
        4,
        Month::January,
        Frequency::Monthly,
        Money::from_dollars(600000),
    );
    distant_flow.start.year = Year(2022);
    distant_flow.end.year = Year(2022);

    let flows = vec![
        test_flow(0, Month::January, Frequency::Monthly, Money::from_dollars(1)),
        test_flow(1, Month::January, Frequency::Monthly, Money::from_dollars(20)),
        test_flow(2, Month::March, Frequency::Quarterly, Money::from_dollars(300)),
        test_flow(3, Month::July, Frequency::Yearly, Money::from_dollars(4000)),
        distant_flow,
    ];

    let cat_model = CategoryModel { flows: &flows };
    let mut value = cat.value();
    let out = cat_model.run(&mut value, Year(2021)).expect("category run failed");

    verify_year(
        out,
        Money::from_dollars(123),
        None,
        vec![
            (vec![1, 20], vec!["0", "1"]),            // Jan
            (vec![1, 20], vec!["0", "1"]),            // Feb
            (vec![1, 20, 300], vec!["0", "1", "2"]),  // Mar
            (vec![1, 20], vec!["0", "1"]),            // Apr
            (vec![1, 20], vec!["0", "1"]),            // May
            (vec![1, 20, 300], vec!["0", "1", "2"]),  // Jun
            (vec![1, 20, 4000], vec!["0", "1", "3"]), // Jul
            (vec![1, 20], vec!["0", "1"]),            // Aug
            (vec![1, 20, 300], vec!["0", "1", "2"]),  // Sep
            (vec![1, 20], vec!["0", "1"]),            // Oct
            (vec![1, 20], vec!["0", "1"]),            // Nov
            (vec![1, 20, 300], vec!["0", "1", "2"]),  // Dec
        ],
    );
}

#[test]
fn test_model_validation() {
    let c1 = Category::from_assets(CategoryName("c1".to_string()), vec![]);

    // an unknown tax category is rejected
    let r = Model::new(
        vec![],
        vec![c1.clone()],
        AnnualTaxPolicy::FixedRate(FixedRateTaxPolicy::new(
            Rate::from_percent(35),
            Money::from_dollars(0),
        )),
        CategoryName("missing".to_string()),
    );
    assert!(matches!(r, Err(ModelError::UnknownTaxCategory)));

    // a flow keyed by an unknown category is rejected
    let r = Model::new(
        vec![(
            CategoryName("unknown".to_string()),
            vec![test_flow(0, Month::January, Frequency::Monthly, Money::from_dollars(1))],
        )],
        vec![c1.clone()],
        AnnualTaxPolicy::FixedRate(FixedRateTaxPolicy::new(
            Rate::from_percent(35),
            Money::from_dollars(0),
        )),
        c1.name.clone(),
    );
    assert!(matches!(r, Err(ModelError::UnknownFlowCategory)));

    // the same category keying two flow lists is rejected
    let r = Model::new(
        vec![
            (
                c1.name.clone(),
                vec![test_flow(0, Month::January, Frequency::Monthly, Money::from_dollars(1))],
            ),
            (
                c1.name.clone(),
                vec![test_flow(1, Month::January, Frequency::Monthly, Money::from_dollars(2))],
            ),
        ],
        vec![c1.clone()],
        AnnualTaxPolicy::FixedRate(FixedRateTaxPolicy::new(
            Rate::from_percent(35),
            Money::from_dollars(0),
        )),
        c1.name.clone(),
    );
    assert!(matches!(r, Err(ModelError::DuplicateFlowCategory)));

    // a valid configuration is accepted
    let r = Model::new(
        vec![(
            c1.name.clone(),
            vec![test_flow(0, Month::January, Frequency::Monthly, Money::from_dollars(1))],
        )],
        vec![c1.clone()],
        AnnualTaxPolicy::FixedRate(FixedRateTaxPolicy::new(
            Rate::from_percent(35),
            Money::from_dollars(0),
        )),
        c1.name.clone(),
    );
    assert!(r.is_ok());
}

#[test]
fn test_run_abort_carries_context() {
    // a table flow whose table does not cover the simulated months makes
    // the run fail, naming the year and category where it happened
    let c1 = Category::from_assets(CategoryName("c1".to_string()), vec![]);
    let table = financial_planning::lookup_table::LookupTable::new(vec![(
        TimeRange {
            start: Time { year: Year(2030), month: Month::January },
            end: Time { year: Year(2031), month: Month::January },
        },
        Money::from_dollars(10),
    )])
    .unwrap();
    let mut flow = test_flow(0, Month::January, Frequency::Monthly, Money::from_dollars(1));
    flow.value = FlowValue::Table(financial_planning::flow::TableFlow { table });
    let mut model = Model::new(
        vec![(c1.name.clone(), vec![flow])],
        vec![c1.clone()],
        AnnualTaxPolicy::FixedRate(FixedRateTaxPolicy::new(
            Rate::from_percent(35),
            Money::from_dollars(0),
        )),
        c1.name.clone(),
    )
    .unwrap();
    let err = model
        .run(TimeRange { start: Year(2021), end: Year(2023) })
        .unwrap_err();
    assert_eq!(err.year, Year(2021));
    assert_eq!(err.category, Some(CategoryName("c1".to_string())));
    assert_eq!(err.month, Some(Month::January));
    assert_eq!(err.flow, Some(FlowName("0".to_string())));
    assert_eq!(err.error, financial_planning::errors::EvalError::TimeNotInTable);
}

#[test]
fn test_category_run_overflow_names_month() {
    // two huge amounts in one month overflow the balance update: the
    // error names the month, and no single flow is at fault
    let cat = Category::from_assets(CategoryName("c".to_string()), vec![]);
    let mut f1 = test_flow(0, Month::January, Frequency::Monthly, Money::from_cents(0));
    f1.value = FlowValue::Fixed(FixedFlow { value: Money::from_cents(i64::MAX) });
    f1.tax_policy = TaxPolicy::TaxExempt(TaxExempt {});
    let mut f2 = test_flow(1, Month::January, Frequency::Monthly, Money::from_cents(0));
    f2.value = FlowValue::Fixed(FixedFlow { value: Money::from_cents(i64::MAX) });
    f2.tax_policy = TaxPolicy::TaxExempt(TaxExempt {});
    let flows = vec![f1, f2];
    let cat_model = CategoryModel { flows: &flows };
    let mut value = cat.value();
    let err = cat_model.run(&mut value, Year(2021)).unwrap_err();
    assert_eq!(err.month, Month::January);
    assert_eq!(err.flow, None);
    assert_eq!(err.error, financial_planning::errors::EvalError::Overflow);
}

#[test]
fn test_duplicate_flow_names_last_wins() {
    // two flows sharing a name in the same category and month: the later
    // one replaces the earlier in the report, and only its amount counts
    let c1 = Category::from_assets(CategoryName("c1".to_string()), vec![]);
    let flows = vec![
        test_flow(7, Month::January, Frequency::Monthly, Money::from_dollars(100)),
        test_flow(7, Month::January, Frequency::Monthly, Money::from_dollars(30)),
    ];
    let cat_model = CategoryModel { flows: &flows };
    let mut value = c1.value();
    let out = cat_model.run(&mut value, Year(2021)).unwrap();
    let jan = &out[0].1;
    assert_eq!(jan.transactions.len(), 1);
    assert_eq!(jan.transactions[0].0 .0, "7".to_string());
    // $30 gross at 10% withholding leaves $27 net
    assert_eq!(jan.transactions[0].1.amount, Money::from_dollars(27));
    assert_eq!(jan.value, Money::from_dollars(27));
}
