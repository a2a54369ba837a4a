use scrapper::utils::manifest::{Manifest, TimePeriod};

#[test]
fn test_no_overlap() {
    let mut m = Manifest {
        assets: Vec::new(),
        granularity: "1m".to_string(),
        down_times: vec![
            TimePeriod { start: 1, end: 3 },
            TimePeriod { start: 5, end: 7 },
            TimePeriod { start: 9, end: 11 },
        ],
    };

    m.concat_down_times();

    let expected = vec![
        TimePeriod { start: 1, end: 3 },
        TimePeriod { start: 5, end: 7 },
        TimePeriod { start: 9, end: 11 },
    ];

    assert_eq!(*m.get_down_times(), expected);
}

#[test]
fn test_overlap() {
    let mut m = Manifest {
        assets: Vec::new(),
        granularity: "1m".to_string(),
        down_times: vec![
            TimePeriod { start: 1, end: 5 },
            TimePeriod { start: 2, end: 6 },
            TimePeriod { start: 8, end: 10 },
            TimePeriod { start: 9, end: 11 },
        ],
    };

    m.concat_down_times();

    let expected = vec![
        TimePeriod { start: 1, end: 6 },
        TimePeriod { start: 8, end: 11 },
    ];

    assert_eq!(*m.get_down_times(), expected);
}

#[test]
fn test_contiguous_periods() {
    let mut m = Manifest {
        assets: Vec::new(),
        granularity: "1m".to_string(),
        down_times: vec![
            TimePeriod { start: 1, end: 3 },
            TimePeriod { start: 3, end: 5 },
            TimePeriod { start: 5, end: 7 },
        ],
    };

    m.concat_down_times();

    let expected = vec![TimePeriod { start: 1, end: 7 }];

    assert_eq!(*m.get_down_times(), expected);
}

#[test]
fn test_contained_periods() {
    let mut m = Manifest {
        assets: Vec::new(),
        granularity: "1m".to_string(),
        down_times: vec![
            TimePeriod { start: 1, end: 10 },
            TimePeriod { start: 2, end: 5 },
            TimePeriod { start: 3, end: 4 },
            TimePeriod { start: 11, end: 15 },
        ],
    };

    m.concat_down_times();

    let expected = vec![
        TimePeriod { start: 1, end: 10 },
        TimePeriod { start: 11, end: 15 },
    ];

    assert_eq!(*m.get_down_times(), expected);
}

#[test]
fn test_single_period() {
    let mut m = Manifest {
        assets: Vec::new(),
        granularity: "1m".to_string(),
        down_times: vec![TimePeriod { start: 1, end: 3 }],
    };

    m.concat_down_times();

    let expected = vec![TimePeriod { start: 1, end: 3 }];

    assert_eq!(*m.get_down_times(), expected);
}

#[test]
fn test_empty_periods() {
    let mut m = Manifest {
        assets: Vec::new(),
        granularity: "1m".to_string(),
        down_times: vec![],
    };

    m.concat_down_times();

    let expected: Vec<TimePeriod> = vec![];

    assert_eq!(*m.get_down_times(), expected);
}

#[test]
fn test_merge_order_independent_example() {
    let forward = vec![
        TimePeriod { start: 1, end: 5 },
        TimePeriod { start: 2, end: 6 },
        TimePeriod { start: 8, end: 10 },
        TimePeriod { start: 9, end: 11 },
    ];
    let mut permuted = vec![
        TimePeriod { start: 9, end: 11 },
        TimePeriod { start: 2, end: 6 },
        TimePeriod { start: 1, end: 5 },
        TimePeriod { start: 8, end: 10 },
    ];

    let mut a = Manifest {
        assets: Vec::new(),
        granularity: "1m".to_string(),
        down_times: forward,
    };
    a.concat_down_times();

    let mut b = Manifest {
        assets: Vec::new(),
        granularity: "1m".to_string(),
        down_times: std::mem::take(&mut permuted),
    };
    b.concat_down_times();

    let expected = vec![
        TimePeriod { start: 1, end: 6 },
        TimePeriod { start: 8, end: 11 },
    ];
    assert_eq!(*a.get_down_times(), expected);
    assert_eq!(*b.get_down_times(), expected);
}

#[test]
fn test_merge_idempotent_example() {
    let mut m = Manifest {
        assets: Vec::new(),
        granularity: "1m".to_string(),
        down_times: vec![
            TimePeriod { start: 4, end: 9 },
            TimePeriod { start: 1, end: 4 },
            TimePeriod { start: 20, end: 30 },
        ],
    };
    m.concat_down_times();
    let once = m.get_down_times().clone();
    m.concat_down_times();
    assert_eq!(*m.get_down_times(), once);
    assert_eq!(once, vec![TimePeriod { start: 1, end: 9 }, TimePeriod { start: 20, end: 30 }]);
}

#[test]
fn test_add_down_time_deduplicates() {
    let mut m = Manifest::new("1h");
    m.add_down_time(TimePeriod::new(1, 3));
    m.add_down_time(TimePeriod::new(1, 3));
    m.add_down_time(TimePeriod::new(2, 4));
    assert_eq!(
        *m.get_down_times(),
        vec![TimePeriod { start: 1, end: 3 }, TimePeriod { start: 2, end: 4 }]
    );
}

#[test]
fn test_add_asset_replaces() {
    let mut m = Manifest::new("1h");
    m.add_asset("BTC", TimePeriod::new(5, 10));
    m.add_asset("ETH", TimePeriod::new(6, 11));
    m.add_asset("BTC", TimePeriod::new(1, 10));
    let assets = m.get_assets();
    assert_eq!(assets.len(), 2);
    assert_eq!(assets[0].0, "BTC");
    assert_eq!(assets[0].1, TimePeriod { start: 1, end: 10 });
    assert_eq!(assets[1].0, "ETH");
    assert_eq!(assets[1].1, TimePeriod { start: 6, end: 11 });
}
