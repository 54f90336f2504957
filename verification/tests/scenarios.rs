use transfer_stats::model::{ComputationError, Transfer};
use transfer_stats::metrics::{calculate_user_stats, compute_statistics};

fn tr(ts: u64, from: &str, to: &str, amount: u64, usd_price: u64) -> Transfer {
    Transfer { ts, from: from.to_string(), to: to.to_string(), amount, usd_price }
}

#[test]
fn test_single_transfer_scenario() {
    let transfers = vec![tr(0, "A", "B", 10, 5)];
    let stats = calculate_user_stats(&transfers).unwrap();

    let a = stats.iter().find(|s| s.address == "A").unwrap();
    assert_eq!(a.total_volume, 10);
    assert_eq!(a.avg_sell_price, 5);
    assert_eq!(a.avg_buy_price, 0);

    let b = stats.iter().find(|s| s.address == "B").unwrap();
    assert_eq!(b.total_volume, 10);
    assert_eq!(b.avg_buy_price, 5);
    assert_eq!(b.avg_sell_price, 0);
}

#[test]
fn test_one_hour_window_over_negative_balances() {
    let transfers = vec![
        tr(0, "A", "B", 10, 1),
        tr(1800, "B", "A", 5, 1),
        tr(3600, "A", "B", 3, 1),
    ];
    let windows: Vec<u64> = vec![3600];
    let stats = compute_statistics(&transfers, &windows).unwrap();

    // A's balances run -10, -5, -8; the window anchored at t=0 covers
    // all three events, so the one-hour peak is -5, as is the all-time
    // peak: A never goes positive.
    let a = stats.iter().find(|s| s.address == "A").unwrap();
    assert_eq!(a.max_balance_per_window.len(), 1);
    assert_eq!(a.max_balance_per_window[0], (3600, -5));
    assert_eq!(a.max_balance, -5);
}

#[test]
fn test_empty_batch_yields_empty_output() {
    let transfers: Vec<Transfer> = vec![];
    let windows: Vec<u64> = vec![3600, 86400];
    let stats = compute_statistics(&transfers, &windows).unwrap();
    assert!(stats.is_empty());
}

#[test]
fn test_total_volume_equals_buy_plus_sell_volume() {
    let transfers = vec![
        tr(0, "A", "B", 10, 2),
        tr(10, "B", "A", 4, 3),
        tr(20, "A", "C", 6, 1),
    ];
    let stats = calculate_user_stats(&transfers).unwrap();

    // A sends 10 and 6 and receives 4; B receives 10 and sends 4;
    // C receives 6.
    let a = stats.iter().find(|s| s.address == "A").unwrap();
    assert_eq!(a.total_volume, 20);
    let b = stats.iter().find(|s| s.address == "B").unwrap();
    assert_eq!(b.total_volume, 14);
    let c = stats.iter().find(|s| s.address == "C").unwrap();
    assert_eq!(c.total_volume, 6);
    for s in &stats {
        assert!(s.total_volume > 0);
    }
}

#[test]
fn test_windowed_peak_never_exceeds_global_peak() {
    let transfers = vec![
        tr(0, "A", "B", 7, 1),
        tr(50, "B", "C", 3, 2),
        tr(5000, "C", "A", 9, 1),
        tr(90000, "A", "B", 2, 4),
    ];
    let windows: Vec<u64> = vec![1, 60, 3600, 86400, 604800];
    let stats = compute_statistics(&transfers, &windows).unwrap();
    assert_eq!(stats.len(), 3);
    for s in &stats {
        assert_eq!(s.max_balance_per_window.len(), windows.len());
        for &(_, peak) in &s.max_balance_per_window {
            assert!(peak <= s.max_balance);
        }
    }
}

#[test]
fn test_average_price_zero_only_without_volume() {
    let transfers = vec![tr(0, "S", "R", 10, 7), tr(5, "S", "R", 2, 7)];
    let stats = calculate_user_stats(&transfers).unwrap();

    // S only sends: no received volume, so its average buy price is 0;
    // R only receives: no sent volume, so its average sell price is 0.
    let s = stats.iter().find(|s| s.address == "S").unwrap();
    assert_eq!(s.avg_buy_price, 0);
    assert!(s.avg_sell_price > 0);
    let r = stats.iter().find(|s| s.address == "R").unwrap();
    assert_eq!(r.avg_sell_price, 0);
    assert!(r.avg_buy_price > 0);
}

#[test]
fn test_self_transfer_counts_both_flows() {
    let transfers = vec![tr(0, "C", "C", 4, 3)];
    let stats = calculate_user_stats(&transfers).unwrap();
    assert_eq!(stats.len(), 1);
    let c = &stats[0];
    assert_eq!(c.address, "C");
    assert_eq!(c.total_volume, 8);
    assert_eq!(c.avg_buy_price, 3);
    assert_eq!(c.avg_sell_price, 3);
    assert_eq!(c.max_balance, 0);
}

#[test]
fn test_batch_order_does_not_matter() {
    let batch = vec![
        tr(40, "B", "C", 2, 9),
        tr(10, "A", "B", 5, 3),
        tr(30, "C", "A", 1, 2),
        tr(20, "B", "A", 4, 6),
    ];
    let mut reversed = batch.clone();
    reversed.reverse();

    let stats1 = calculate_user_stats(&batch).unwrap();
    let stats2 = calculate_user_stats(&reversed).unwrap();
    assert_eq!(stats1, stats2);

    // and running the engine twice on one batch changes nothing
    let stats3 = calculate_user_stats(&batch).unwrap();
    assert_eq!(stats1, stats3);
}

#[test]
fn test_equal_timestamps_keep_batch_order() {
    // two transfers at one instant: the ledger orders them by batch
    // position, so A's balances run -10 then -7
    let transfers = vec![tr(100, "A", "B", 10, 1), tr(100, "B", "A", 3, 1)];
    let stats = calculate_user_stats(&transfers).unwrap();
    let a = stats.iter().find(|s| s.address == "A").unwrap();
    assert_eq!(a.max_balance, -7);
}

#[test]
fn test_timestamp_overflow_is_rejected() {
    let transfers = vec![tr(u64::MAX, "A", "B", 1, 1)];
    let result = calculate_user_stats(&transfers);
    assert_eq!(result, Err(ComputationError::InvalidTimestamp));
}

#[test]
fn test_weighted_sum_overflow_is_rejected() {
    let transfers = vec![
        tr(0, "A", "B", u64::MAX, u64::MAX),
        tr(1, "A", "B", u64::MAX, u64::MAX),
    ];
    let result = calculate_user_stats(&transfers);
    assert_eq!(result, Err(ComputationError::NumericOverflow));
}
