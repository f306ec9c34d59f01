use financial_planning::errors::TableError;
use financial_planning::lookup_table::LookupTable;
use financial_planning::time::{TimeRange, Year};

#[test]
fn test_validation() {
    LookupTable::new(vec![(TimeRange { start: Year(1), end: Year(10) }, 1 as i64)])
        .expect("incorrectly rejected single entry range");

    LookupTable::new(vec![
        (TimeRange { start: Year(1), end: Year(2) }, 1 as i64),
        (TimeRange { start: Year(2), end: Year(3) }, 2 as i64),
    ])
    .expect("incorrectly rejected ordered 2 single year entries");

    LookupTable::new(vec![
        (TimeRange { start: Year(1), end: Year(5) }, 1 as i64),
        (TimeRange { start: Year(5), end: Year(10) }, 2 as i64),
    ])
    .expect("incorrectly rejected ordered 2 multi-year entries");

    LookupTable::new(vec![
        (TimeRange { start: Year(1), end: Year(2) }, 1 as i64),
        (TimeRange { start: Year(2), end: Year(5) }, 2 as i64),
        (TimeRange { start: Year(5), end: Year(10) }, 3 as i64),
    ])
    .expect("incorrectly rejected ordered 3 varied length entries");

    LookupTable::new(vec![
        (TimeRange { start: Year(2), end: Year(3) }, 2 as i64),
        (TimeRange { start: Year(1), end: Year(2) }, 1 as i64),
    ])
    .expect("incorrectly rejected unordered 2 single year entries");

    LookupTable::new(vec![
        (TimeRange { start: Year(5), end: Year(10) }, 2 as i64),
        (TimeRange { start: Year(1), end: Year(5) }, 1 as i64),
    ])
    .expect("incorrectly rejected unordered 2 multi-year entries");

    LookupTable::new(vec![
        (TimeRange { start: Year(2), end: Year(5) }, 2 as i64),
        (TimeRange { start: Year(1), end: Year(2) }, 1 as i64),
        (TimeRange { start: Year(5), end: Year(10) }, 3 as i64),
    ])
    .expect("incorrectly rejected unordered 3 varied length entries");

    assert!(LookupTable::<Year, u64>::new(vec![]).is_err());

    assert!(LookupTable::new(vec![
        (TimeRange { start: Year(1), end: Year(2) }, 1 as i64),
        (TimeRange { start: Year(3), end: Year(4) }, 2 as i64),
    ])
    .is_err());

    assert!(LookupTable::new(vec![
        (TimeRange { start: Year(1), end: Year(10) }, 1 as i64),
        (TimeRange { start: Year(3), end: Year(4) }, 2 as i64),
    ])
    .is_err());

    assert!(LookupTable::new(vec![
        (TimeRange { start: Year(1), end: Year(5) }, 1 as i64),
        (TimeRange { start: Year(4), end: Year(6) }, 2 as i64),
        (TimeRange { start: Year(5), end: Year(10) }, 2 as i64),
    ])
    .is_err());
}

#[test]
fn test_range() {
    assert_eq!(
        LookupTable::new(vec![(TimeRange { start: Year(1), end: Year(10) }, 1 as i64)])
            .unwrap()
            .range(),
        TimeRange { start: Year(1), end: Year(10) }
    );

    assert_eq!(
        LookupTable::new(vec![
            (TimeRange { start: Year(2), end: Year(5) }, 2 as i64),
            (TimeRange { start: Year(1), end: Year(2) }, 1 as i64),
        ])
        .unwrap()
        .range(),
        TimeRange { start: Year(1), end: Year(5) }
    );

    assert_eq!(
        LookupTable::new(vec![
            (TimeRange { start: Year(5), end: Year(12) }, 2 as i64),
            (TimeRange { start: Year(1), end: Year(5) }, 1 as i64),
        ])
        .unwrap()
        .range(),
        TimeRange { start: Year(1), end: Year(12) }
    );

    assert_eq!(
        LookupTable::new(vec![
            (TimeRange { start: Year(2), end: Year(5) }, 2 as i64),
            (TimeRange { start: Year(1), end: Year(2) }, 1 as i64),
            (TimeRange { start: Year(5), end: Year(13) }, 3 as i64),
        ])
        .unwrap()
        .range(),
        TimeRange { start: Year(1), end: Year(13) }
    );
}

#[test]
fn test_value_at() {
    let r = LookupTable::new(vec![
        (TimeRange { start: Year(2), end: Year(5) }, 2 as i64),
        (TimeRange { start: Year(1), end: Year(2) }, 1 as i64),
        (TimeRange { start: Year(5), end: Year(13) }, 3 as i64),
    ])
    .unwrap();

    assert!(r.value_at(&Year(0)).is_err());
    assert_eq!(r.value_at(&Year(1)).unwrap(), 1);
    assert_eq!(r.value_at(&Year(2)).unwrap(), 2);
    assert_eq!(r.value_at(&Year(3)).unwrap(), 2);
    assert_eq!(r.value_at(&Year(4)).unwrap(), 2);
    assert_eq!(r.value_at(&Year(5)).unwrap(), 3);
    assert_eq!(r.value_at(&Year(6)).unwrap(), 3);
    assert_eq!(r.value_at(&Year(8)).unwrap(), 3);
    assert_eq!(r.value_at(&Year(12)).unwrap(), 3);
    assert!(r.value_at(&Year(13)).is_err());
}

#[test]
fn test_table_error_variants() {
    assert_eq!(
        LookupTable::<Year, i64>::new(vec![]).unwrap_err(),
        TableError::Empty
    );
    assert_eq!(
        LookupTable::new(vec![(TimeRange { start: Year(5), end: Year(5) }, 1 as i64)])
            .unwrap_err(),
        TableError::BadEntry { index: 0 }
    );
    assert_eq!(
        LookupTable::new(vec![(TimeRange { start: Year(5), end: Year(2) }, 1 as i64)])
            .unwrap_err(),
        TableError::BadEntry { index: 0 }
    );
    assert_eq!(
        LookupTable::new(vec![
            (TimeRange { start: Year(1), end: Year(2) }, 1 as i64),
            (TimeRange { start: Year(3), end: Year(4) }, 2 as i64),
        ])
        .unwrap_err(),
        TableError::NotContiguous { index: 1 }
    );
}
