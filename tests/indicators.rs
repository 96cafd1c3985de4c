use wallet_insight::indicators::{
    calculate_ema, calculate_macd, calculate_moving_averages, calculate_rsi, calculate_sma,
};
use wallet_insight::model::{PricePoint, SCALE};

fn series(prices: &[u64]) -> Vec<PricePoint> {
    prices
        .iter()
        .enumerate()
        .map(|(i, p)| PricePoint { timestamp: i as i64 * 60, price: *p, volume: 1_000 })
        .collect()
}

#[test]
fn rsi_of_short_series_is_neutral() {
    for n in 0..15 {
        let s = series(&vec![5 * SCALE; n]);
        assert_eq!(calculate_rsi(&s), 50 * SCALE);
    }
}

#[test]
fn rsi_of_rising_twenty_points_is_hundred() {
    let prices: Vec<u64> = (1..=20).map(|i| i * SCALE).collect();
    assert_eq!(calculate_rsi(&series(&prices)), 100 * SCALE);
}

#[test]
fn rsi_of_mixed_series_is_exact() {
    // gains: 2 * 7 = 14, losses: 1 * 7 = 7 -> 100 * 14 / 21
    let mut prices = vec![10u64];
    for i in 0..14 {
        let last = *prices.last().unwrap();
        prices.push(if i % 2 == 0 { last + 2 } else { last - 1 });
    }
    assert_eq!(prices.len(), 15);
    let r = calculate_rsi(&series(&prices));
    assert_eq!(r, 100 * SCALE * 14 / 21);
    assert!(r <= 100 * SCALE);
}

#[test]
fn rsi_of_falling_series_is_zero() {
    let prices: Vec<u64> = (0..16).map(|i| 100 - i).collect();
    assert_eq!(calculate_rsi(&series(&prices)), 0);
}

#[test]
fn sma_and_ema_of_short_series_return_last_price() {
    let s = series(&[3, 9, 7]);
    assert_eq!(calculate_sma(&s, 20), 7);
    assert_eq!(calculate_ema(&s, 12), 7);
    assert_eq!(calculate_sma(&[], 5), 0);
    assert_eq!(calculate_ema(&[], 5), 0);
}

#[test]
fn sma_averages_the_last_period_prices() {
    let s = series(&[100, 1, 2, 3, 4]);
    assert_eq!(calculate_sma(&s, 4), 2);
    assert_eq!(calculate_sma(&s, 5), 22);
}

#[test]
fn ema_smooths_across_the_whole_series() {
    // period 3: e = (2p + 2e) / 4
    let s = series(&[100, 200, 300]);
    // 100 -> (400 + 200) / 4 = 150 -> (600 + 300) / 4 = 225
    assert_eq!(calculate_ema(&s, 3), 225);
}

#[test]
fn macd_of_short_series() {
    let s = series(&[10, 20, 30]);
    let m = calculate_macd(&s);
    assert_eq!(m.value, 0);
    assert_eq!(m.signal, 0);
    assert_eq!(m.histogram, 0);
}

#[test]
fn macd_signal_skips_first_fourteen_points() {
    let prices: Vec<u64> = (0..20).map(|i| if i < 14 { 1_000 } else { 2_000 }).collect();
    let s = series(&prices);
    let m = calculate_macd(&s);
    // six points remain for the signal line, fewer than nine: last price
    assert_eq!(m.signal, 2_000);
    let e12 = calculate_ema(&s, 12) as i64;
    assert_eq!(m.value, e12 - 2_000);
    assert_eq!(m.histogram, m.value - 2_000);
}

#[test]
fn moving_averages_fall_back_on_short_series() {
    let prices: Vec<u64> = (1..=60).collect();
    let ma = calculate_moving_averages(&series(&prices));
    assert_eq!(ma.ma_20, (41..=60).sum::<u64>() / 20);
    assert_eq!(ma.ma_50, (11..=60).sum::<u64>() / 50);
    assert_eq!(ma.ma_200, 60);
}
