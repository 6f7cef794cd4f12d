use coin_dash::history::{CoinData, Sample, Snapshot, SCALE};

fn coin(window: usize) -> CoinData {
    CoinData::new("BTCUSDT".to_string(), "BTC".to_string(), window)
}

fn prices(c: &CoinData) -> Vec<i128> {
    c.price_history.iter().map(|s| s.price).collect()
}

#[test]
fn window_keeps_last_three_of_six() {
    let mut c = coin(3);
    for p in 1..=6i128 {
        c.push_sample(Sample { timestamp: p as i64 * 1000, price: p * SCALE });
    }
    assert_eq!(prices(&c), vec![4 * SCALE, 5 * SCALE, 6 * SCALE]);
}

#[test]
fn history_length_is_min_of_pushes_and_window() {
    for n in 0..12usize {
        let mut c = coin(5);
        for k in 0..n {
            c.push_sample(Sample { timestamp: k as i64, price: k as i128 });
        }
        assert_eq!(c.price_history.len(), n.min(5));
        assert!(c.price_history.windows(2).all(|w| w[0].timestamp <= w[1].timestamp));
    }
}

#[test]
fn window_of_one_keeps_newest() {
    let mut c = coin(1);
    c.push_sample(Sample { timestamp: 1, price: 10 });
    c.push_sample(Sample { timestamp: 2, price: 20 });
    assert_eq!(c.price_history, vec![Sample { timestamp: 2, price: 20 }]);
}

#[test]
fn record_snapshot_updates_stats_and_appends() {
    let mut c = coin(4);
    let s = Snapshot { price: 7 * SCALE, change_24h: -2 * SCALE, high_24h: 8 * SCALE, low_24h: 6 * SCALE, volume_24h: 1000 };
    c.record_snapshot(s, 500);
    assert_eq!(c.price, 7 * SCALE);
    assert_eq!(c.change_24h, -2 * SCALE);
    assert_eq!(c.high_24h, 8 * SCALE);
    assert_eq!(c.low_24h, 6 * SCALE);
    assert_eq!(c.volume_24h, 1000);
    assert_eq!(c.price_history, vec![Sample { timestamp: 500, price: 7 * SCALE }]);
}

#[test]
fn record_snapshot_never_goes_back_in_time() {
    let mut c = coin(4);
    let s = Snapshot { price: 1, change_24h: 0, high_24h: 0, low_24h: 0, volume_24h: 0 };
    c.record_snapshot(s, 900);
    c.record_snapshot(s, 100);
    assert_eq!(c.price_history[1].timestamp, 900);
}

#[test]
fn bounds_of_empty_series_are_around_zero() {
    let c = coin(5);
    assert_eq!(c.price_bounds(), (-1, 1));
}

#[test]
fn bounds_of_single_sample_are_padded() {
    let mut c = coin(5);
    c.push_sample(Sample { timestamp: 1, price: 100 * SCALE });
    assert_eq!(c.price_bounds(), (99 * SCALE, 101 * SCALE));
}

#[test]
fn bounds_of_tiny_single_sample_have_width() {
    let mut c = coin(5);
    c.push_sample(Sample { timestamp: 1, price: 50 });
    assert_eq!(c.price_bounds(), (49, 51));
}

#[test]
fn bounds_of_flat_series_are_padded() {
    let mut c = coin(5);
    c.push_sample(Sample { timestamp: 1, price: -200 });
    c.push_sample(Sample { timestamp: 2, price: -200 });
    assert_eq!(c.price_bounds(), (-202, -198));
}

#[test]
fn bounds_of_varied_series_are_min_and_max() {
    let mut c = coin(5);
    for (t, p) in [(1, 30), (2, 10), (3, 50), (4, 20)] {
        c.push_sample(Sample { timestamp: t, price: p });
    }
    assert_eq!(c.price_bounds(), (10, 50));
}

#[test]
fn history_data_numbers_the_samples() {
    let mut c = coin(5);
    c.push_sample(Sample { timestamp: 1, price: 30 });
    c.push_sample(Sample { timestamp: 2, price: 10 });
    assert_eq!(c.history_data(), vec![(0, 30), (1, 10)]);
}

#[test]
fn time_labels_take_oldest_middle_newest() {
    let mut c = coin(10);
    assert_eq!(c.time_labels(), Vec::<i64>::new());
    for t in [10i64, 20, 30, 40, 50] {
        c.push_sample(Sample { timestamp: t, price: 1 });
    }
    assert_eq!(c.time_labels(), vec![10, 30, 50]);
}

#[test]
fn window_of_zero_keeps_nothing() {
    let mut c = coin(0);
    c.push_sample(Sample { timestamp: 1, price: 10 });
    c.record_snapshot(Snapshot { price: 5, change_24h: 1, high_24h: 6, low_24h: 4, volume_24h: 9 }, 2);
    assert!(c.price_history.is_empty());
    assert_eq!(c.price, 5);
    assert_eq!(c.price_bounds(), (-1, 1));
}
