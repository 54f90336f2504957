use transfer_stats::model::ComputationError;
use transfer_stats::window::{
    calculate_max_balance_for_period, max_balance_for_period_monotonic, max_balance_of,
};

fn lcg_next(state: &mut u64) -> u64 {
    *state = state
        .wrapping_mul(6364136223846793005)
        .wrapping_add(1442695040888963407);
    *state
}

#[test]
fn test_strategies_agree_on_randomized_histories() {
    let mut state: u64 = 42;
    let periods: [u64; 6] = [0, 1, 10, 500, 10_000, 10_000_000];
    for len in 0..40usize {
        let mut history: Vec<(u64, i128)> = Vec::new();
        let mut ts: u64 = 0;
        for _ in 0..len {
            ts += lcg_next(&mut state) % 1000;
            let balance = (lcg_next(&mut state) % 2001) as i128 - 1000;
            history.push((ts, balance));
        }
        for &period in &periods {
            let naive = calculate_max_balance_for_period(&history, period);
            let fast = max_balance_for_period_monotonic(&history, period);
            assert_eq!(naive, fast);
        }
    }
}

#[test]
fn test_window_shorter_than_history() {
    // only the anchor itself fits either window, so the best anchor is
    // the first event
    let history: Vec<(u64, i128)> = vec![(0, 5), (10_000, 3)];
    let naive = calculate_max_balance_for_period(&history, 100);
    let fast = max_balance_for_period_monotonic(&history, 100);
    assert_eq!(naive, Ok(Some((0, 5))));
    assert_eq!(fast, Ok(Some((0, 5))));
}

#[test]
fn test_anchor_is_earliest_attaining() {
    // both anchors see the peak 9; the earlier one is reported
    let history: Vec<(u64, i128)> = vec![(0, 2), (10, 9), (20, 1)];
    let r = max_balance_for_period_monotonic(&history, 3600).unwrap();
    assert_eq!(r, Some((0, 9)));
}

#[test]
fn test_empty_history_has_no_anchor() {
    let history: Vec<(u64, i128)> = vec![];
    assert_eq!(calculate_max_balance_for_period(&history, 60), Ok(None));
    assert_eq!(max_balance_for_period_monotonic(&history, 60), Ok(None));
}

#[test]
fn test_window_end_overflow_is_rejected() {
    let history: Vec<(u64, i128)> = vec![(u64::MAX, 1)];
    assert_eq!(
        calculate_max_balance_for_period(&history, 1),
        Err(ComputationError::InvalidTimestamp)
    );
    assert_eq!(
        max_balance_for_period_monotonic(&history, 1),
        Err(ComputationError::InvalidTimestamp)
    );
}

#[test]
fn test_global_peak_of_history() {
    let history: Vec<(u64, i128)> = vec![(0, -10), (1, -5), (2, -8)];
    assert_eq!(max_balance_of(&history), -5);
    let empty: Vec<(u64, i128)> = vec![];
    assert_eq!(max_balance_of(&empty), 0);
}
