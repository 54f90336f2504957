use chrono::{TimeZone, Utc};
use transfer_stats::model::Transfer;
use transfer_stats::metrics::calculate_user_stats;

fn base_ts_2025() -> u64 {
    Utc.with_ymd_and_hms(2025, 5, 25, 12, 0, 0)
        .single()
        .expect("Invalid timestamp")
        .timestamp() as u64
}

#[test]
fn metrics_test_test_empty_transfers() {
    let transfers: Vec<Transfer> = vec![];
    let stats = calculate_user_stats(&transfers).expect("Failed to calculate user stats");
    assert!(stats.is_empty());
}

#[test]
fn metrics_test_test_single_transfer() {
    let ts = base_ts_2025();

    let transfers = vec![Transfer {
        from: "Alice".to_string(),
        to: "Bob".to_string(),
        amount: 10,
        ts,
        usd_price: 5,
    }];

    let stats = calculate_user_stats(&transfers).expect("Failed to calculate user stats");

    let alice_stats = stats
        .iter()
        .find(|s| s.address == "Alice")
        .expect("Alice stats not found");
    let bob_stats = stats
        .iter()
        .find(|s| s.address == "Bob")
        .expect("Bob stats not found");

    // Alice only sends: her peak balance is the (negative) balance after
    // her single debit.
    assert_eq!(alice_stats.max_balance, -10);
    assert_eq!(alice_stats.total_volume, 10);
    assert_eq!(alice_stats.avg_sell_price, 5);
    assert_eq!(alice_stats.avg_buy_price, 0);

    assert!(bob_stats.max_balance >= 0);
    assert_eq!(bob_stats.total_volume, 10);
    assert_eq!(bob_stats.avg_buy_price, 5);
    assert_eq!(bob_stats.avg_sell_price, 0);
}

#[test]
fn metrics_test_test_multiple_transfers() {
    let base_ts = base_ts_2025();

    let transfers = vec![
        Transfer {
            from: "Alice".to_string(),
            to: "Bob".to_string(),
            amount: 10,
            ts: base_ts,
            usd_price: 5,
        },
        Transfer {
            from: "Bob".to_string(),
            to: "Charlie".to_string(),
            amount: 5,
            ts: base_ts + 3600,
            usd_price: 6,
        },
        Transfer {
            from: "Alice".to_string(),
            to: "Charlie".to_string(),
            amount: 2,
            ts: base_ts + 7200,
            usd_price: 4,
        },
    ];

    let stats = calculate_user_stats(&transfers).expect("Failed to calculate user stats");

    for stat in &stats {
        assert!(stat.total_volume > 0);
    }

    let bob_stats = stats
        .iter()
        .find(|s| s.address == "Bob")
        .expect("Bob stats not found");
    assert_eq!(bob_stats.avg_buy_price, 5);
    assert_eq!(bob_stats.avg_sell_price, 6);

    let charlie_stats = stats
        .iter()
        .find(|s| s.address == "Charlie")
        .expect("Charlie stats not found");
    assert!(charlie_stats.max_balance >= 0);
}

#[test]
fn metrics_test_test_max_balance_calculation() {
    let base_ts = base_ts_2025();

    let transfers = vec![
        Transfer {
            from: "A".to_string(),
            to: "B".to_string(),
            amount: 10,
            ts: base_ts,
            usd_price: 1,
        },
        Transfer {
            from: "B".to_string(),
            to: "A".to_string(),
            amount: 5,
            ts: base_ts + 1800,
            usd_price: 1,
        },
        Transfer {
            from: "A".to_string(),
            to: "B".to_string(),
            amount: 3,
            ts: base_ts + 3600,
            usd_price: 1,
        },
    ];

    let stats = calculate_user_stats(&transfers).expect("Failed to calculate user stats");

    let a_stats = stats
        .iter()
        .find(|s| s.address == "A")
        .expect("A stats not found");

    // A's balances run -10, -5, -8: the peak is -5.
    assert_eq!(a_stats.max_balance, -5);
}

#[test]
fn metrics_tests_test_empty_transfers() {
    let transfers: Vec<Transfer> = vec![];
    let stats = calculate_user_stats(&transfers).unwrap();
    assert!(stats.is_empty());
}

#[test]
fn metrics_tests_test_single_transfer() {
    let ts = base_ts_2025();

    let transfers = vec![Transfer {
        from: "Alice".to_string(),
        to: "Bob".to_string(),
        amount: 10,
        ts,
        usd_price: 5,
    }];

    let stats = calculate_user_stats(&transfers).unwrap();

    let alice_stats = stats.iter().find(|s| s.address == "Alice").unwrap();
    let bob_stats = stats.iter().find(|s| s.address == "Bob").unwrap();

    assert_eq!(alice_stats.max_balance, -10);
    assert_eq!(alice_stats.total_volume, 10);
    assert_eq!(alice_stats.avg_sell_price, 5);
    assert_eq!(alice_stats.avg_buy_price, 0);

    assert!(bob_stats.max_balance >= 0);
    assert_eq!(bob_stats.total_volume, 10);
    assert_eq!(bob_stats.avg_buy_price, 5);
    assert_eq!(bob_stats.avg_sell_price, 0);
}

#[test]
fn metrics_tests_test_multiple_transfers() {
    let base_ts = base_ts_2025();

    let transfers = vec![
        Transfer {
            from: "Alice".to_string(),
            to: "Bob".to_string(),
            amount: 10,
            ts: base_ts,
            usd_price: 5,
        },
        Transfer {
            from: "Bob".to_string(),
            to: "Charlie".to_string(),
            amount: 5,
            ts: base_ts + 3600,
            usd_price: 6,
        },
        Transfer {
            from: "Alice".to_string(),
            to: "Charlie".to_string(),
            amount: 2,
            ts: base_ts + 7200,
            usd_price: 4,
        },
    ];

    let stats = calculate_user_stats(&transfers).unwrap();

    for stat in &stats {
        assert!(stat.total_volume > 0);
    }

    let bob_stats = stats.iter().find(|s| s.address == "Bob").unwrap();
    assert_eq!(bob_stats.avg_buy_price, 5);
    assert_eq!(bob_stats.avg_sell_price, 6);

    let charlie_stats = stats.iter().find(|s| s.address == "Charlie").unwrap();
    assert!(charlie_stats.max_balance >= 0);
}

#[test]
fn metrics_tests_test_max_balance_calculation() {
    let base_ts = base_ts_2025();

    let transfers = vec![
        Transfer {
            from: "A".to_string(),
            to: "B".to_string(),
            amount: 10,
            ts: base_ts,
            usd_price: 1,
        },
        Transfer {
            from: "B".to_string(),
            to: "A".to_string(),
            amount: 5,
            ts: base_ts + 1800,
            usd_price: 1,
        },
        Transfer {
            from: "A".to_string(),
            to: "B".to_string(),
            amount: 3,
            ts: base_ts + 3600,
            usd_price: 1,
        },
    ];

    let stats = calculate_user_stats(&transfers).unwrap();

    let a_stats = stats.iter().find(|s| s.address == "A").unwrap();

    // the default windows are one hour, one day, one week, in that order
    let max_1h = a_stats.max_balance_per_window[0].1;
    let max_24h = a_stats.max_balance_per_window[1].1;
    assert_eq!(max_1h, -5);
    assert!(max_24h >= max_1h);
}
