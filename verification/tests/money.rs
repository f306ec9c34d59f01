use financial_planning::asset::{Asset, AssetName, Category, CategoryName, Money, Rate, Tx};
use financial_planning::tax::TaxTx;
use financial_planning::time::{Month, Time, Year};

#[test]
fn test_money_basics() {
    let m = Money::from_dollars(1000000);
    assert_eq!(m.as_dollars(), 1000000);
    assert_eq!(m.render(), "$1,000,000");

    let m = Money::from_cents(123456);
    assert_eq!(m.as_dollars(), 1234);
    assert_eq!(m.render(), "$1,234.56");

    assert_eq!(Money::from_cents(100), Money::from_dollars(1));
    assert_ne!(Money::from_cents(101), Money::from_dollars(1));

    assert_eq!(Money::from_cents(101).as_cents(), 101);
    assert_eq!(Money::from_dollars(1).as_cents(), 100);
}

#[test]
fn test_money_ops() {
    let m1 = Money::from_dollars(10);
    let m2 = Money::from_dollars(10);
    let m3 = Money::from_dollars(5);

    assert_eq!(m1, m2);
    assert!(m1 > m3);
    assert_eq!(m1.add(m3).as_dollars(), 15);
    assert_eq!(m1.sub(m3).as_dollars(), 5);
    assert_eq!(m3.sub(m1).as_dollars(), -5);

    let total: Money = Money::sum(&vec![m1, m2, m3]).unwrap();
    assert_eq!(total, Money::from_dollars(25));

    assert_eq!(m1.negate().as_dollars(), -10);
    assert_eq!(m1.negate().negate(), m1);
    assert_eq!(m1.negate().negate().as_cents(), m1.as_cents());
}

#[test]
fn test_rate_basics() {
    let r = Rate::from_percent(10);
    assert_eq!(r.as_percent(), 10);
    assert_eq!(r.negate().as_percent(), -10);
    assert_eq!("10%".to_string(), r.render());
    assert_eq!("-10%".to_string(), r.negate().render());

    let inv = r.inverse();
    assert_eq!(inv.as_percent(), 90);
    assert_eq!("90%".to_string(), inv.render());
    assert_eq!(r, r.inverse().inverse());

    let r = Rate::from_raw(12345678);
    assert_eq!(r.as_percent(), 12);
    assert_eq!("12.345678%".to_string(), r.render());
}

#[test]
fn test_rate_loading() {
    let values = vec![
        ("1", 1000000),
        ("1.1", 1100000),
        ("1.01", 1010000),
        ("1.001", 1001000),
        ("1.0001", 1000100),
        ("100.51", 100510000),
        ("10%", 10000000),
        (" 10%", 10000000),
        ("10% ", 10000000),
        (" 10% ", 10000000),
        (" 10 % ", 10000000),
        (" -10 % ", -10000000),
    ];

    for (input, output) in values.into_iter() {
        let r: Rate = Rate::parse(input).expect(&format!("Failed to parse {}", input));
        assert_eq!((input, r.as_raw()), (input, output));
    }

    let bad_values = vec![
        "a",
        "a.b",
        "0.a",
        "0a",
        "0.0a",
        "0a.0",
        "0%.0",
        "- 0", // must be touching number
        "0.-1",
        "1.1000000", // don't support more than 6 decimal places for now.
        "1.1234567", // don't support more than 6 decimal places for now.
    ];
    for input in bad_values.into_iter() {
        let r = Rate::parse(input);
        assert_eq!((input, r.is_err()), (input, true));
    }
}

#[test]
fn test_rate_ops() {
    let r1 = Rate::from_percent(20);
    let r2 = Rate::from_percent(20);
    let r3 = Rate::from_percent(10);

    assert_eq!(r1, r2);
    assert!(r1 > r3);
    assert_eq!(r1.div(10), Rate::from_percent(2));
}

#[test]
fn test_rate_money_ops() {
    // Test without rounding issues
    let m = Money::from_dollars(100);
    let r = Rate::from_percent(20);
    let m_out = m.at_rate(r).unwrap();
    assert_eq!(m_out.as_dollars(), 20);

    let m_out = r.at_rate(m).unwrap();
    assert_eq!(m_out.as_dollars(), 20);

    // Test to prove we round well
    let m = Money::from_dollars(2);
    let r = Rate::from_percent(20);
    let m_out = m.at_rate(r).unwrap();
    // externally we truncate down to 0
    assert_eq!(m_out.as_dollars(), 0);
    // Internally we should still see 40c
    assert_eq!(m_out.as_cents(), 40);

    let m_out = r.at_rate(m).unwrap();
    // externally we truncate down to 0
    assert_eq!(m_out.as_dollars(), 0);
    // Internally we should still see 40c
    assert_eq!(m_out.as_cents(), 40);

    // Next test at_rate with tiny rates to make sure we don't
    // truncate where we shouldn't.
    let r = Rate::from_percent(1).div(10);
    let m = Money::from_dollars(2000);
    assert_eq!(m.at_rate(r).unwrap(), Money::from_dollars(2));
    assert_eq!(r.at_rate(m).unwrap(), Money::from_dollars(2));

    let m = Money::from_dollars(20);
    assert_eq!(m.at_rate(r).unwrap(), Money::from_cents(2));
    assert_eq!(r.at_rate(m).unwrap(), Money::from_cents(2));

    // Next we test if we can divide money and get rates
    assert_eq!(Money::from_dollars(100).div(Money::from_dollars(1000)), Rate::from_percent(10),);
    // Test 1c as a % of $1 to test extreme end of precision
    assert_eq!(Money::from_cents(1).div(Money::from_dollars(1)), Rate::from_percent(1),);
    // Check precision below a single % point also works
    assert_eq!(Money::from_dollars(1).div(Money::from_dollars(3)), Rate::from_raw(33333333));
}

#[test]
fn test_category_basics() {
    let c = Category::from_assets(CategoryName("test1".to_string()), vec![]);

    assert_eq!(c.name, CategoryName("test1".to_string()));
    assert!(c.assets.is_empty());

    let val = c.value();
    assert_eq!(val.name().0, "test1".to_string());
    assert_eq!(val.value(), Money::from_dollars(0));

    let assets = vec![
        Asset { name: AssetName("a1".to_string()), value: Money::from_dollars(100) },
        Asset { name: AssetName("a2".to_string()), value: Money::from_dollars(50) },
        Asset { name: AssetName("a3".to_string()), value: Money::from_dollars(-200) },
    ];

    let c = Category::from_assets(CategoryName("test2".to_string()), assets.clone());
    assert_eq!(c.name, CategoryName("test2".to_string()));
    assert_eq!(c.assets, assets);

    let val = c.value();
    assert_eq!(val.name().0, "test2".to_string());
    assert_eq!(val.value(), Money::from_dollars(-50));
}

#[test]
fn test_category_value() {
    let assets = vec![
        Asset { name: AssetName("a1".to_string()), value: Money::from_dollars(100) },
        Asset { name: AssetName("a2".to_string()), value: Money::from_dollars(50) },
        Asset { name: AssetName("a3".to_string()), value: Money::from_dollars(-200) },
    ];

    let c = Category::from_assets(CategoryName("test2".to_string()), assets.clone());
    assert_eq!(c.name, CategoryName("test2".to_string()));
    assert_eq!(c.assets, assets);

    let mut val = c.value();

    assert_eq!(val.name().0, "test2".to_string());
    assert_eq!(val.value(), Money::from_dollars(-50));

    val.apply_tx(&Tx {
        time: Time { year: Year(2021), month: Month::January },
        amount: Money::from_dollars(80),
        tax_tx: TaxTx {
            taxable_income: Money::from_dollars(123),
            tax_withheld: Money::from_dollars(456),
        },
    });
    assert_eq!(val.value(), Money::from_dollars(30));
}

#[test]
fn test_rate_parse_render_round_trip() {
    for raw in [0i64, 1, 9, 100, 1000100, 12345678, 100000000, 33333333] {
        let r = Rate::from_raw(raw);
        let text = r.render();
        let back = Rate::parse(&text).unwrap();
        assert_eq!(back.as_raw(), raw);
    }
}

#[test]
fn test_money_render_negative() {
    assert_eq!(Money::from_cents(-123456).render(), "$-1,234.56");
    assert_eq!(Money::from_cents(-50).render(), "$-0.50");
    assert_eq!(Money::from_dollars(-1000000).render(), "$-1,000,000");
    assert_eq!(Money::from_cents(0).render(), "$0");
}

#[test]
fn test_money_sum_overflow() {
    let nearly = Money::from_cents(i64::MAX);
    assert!(Money::sum(&vec![nearly, Money::from_cents(1)]).is_none());
    assert_eq!(
        Money::sum(&vec![nearly, Money::from_cents(1), Money::from_cents(-1)]),
        Some(nearly),
        "the exact total fits even though a prefix momentarily exceeds the range"
    );
}

#[test]
fn test_at_rate_overflow_is_error() {
    let m = Money::from_cents(i64::MAX);
    let r = Rate::from_percent(200);
    assert!(m.at_rate(r).is_err());
    assert!(r.at_rate(m).is_err());
}
