use wallet_insight::amount::parse_token_amount;
use wallet_insight::error::AppError;
use wallet_insight::cache::{CacheDecision, FetchOutcome, HistoricalSeriesCache};
use wallet_insight::market::{
    analyze_market_sentiment, calculate_sentiment_score, forecast_price, isqrt, predict_token_price,
    token_signals, token_volatility, trend_score,
};
use wallet_insight::advice::Wallet;
use wallet_insight::portfolio::{TokenBalance, TokenSignals};
use wallet_insight::model::{PricePoint, SCALE};
use wallet_insight::order::str_lt;
use wallet_insight::service::{calculate_percentage_change, check_series, AIService, Token};

fn series(prices: &[u64]) -> Vec<PricePoint> {
    prices
        .iter()
        .enumerate()
        .map(|(i, p)| PricePoint { timestamp: i as i64 * 60, price: *p, volume: 1_000 })
        .collect()
}

#[test]
fn parse_whole_and_fractional_amounts() {
    assert_eq!(parse_token_amount("12", 3).unwrap(), 12_000);
    assert_eq!(parse_token_amount("12.5", 3).unwrap(), 12_005);
    assert_eq!(parse_token_amount("+7", 0).unwrap(), 7);
    assert_eq!(parse_token_amount("0", 200).unwrap(), 0);
    assert_eq!(parse_token_amount("18446744073709551615", 0).unwrap(), u64::MAX);
}

#[test]
fn parse_rejects_bad_amounts() {
    for bad in ["", ".", "1.", ".5", "1.2.3", "abc", "1a", "-1", "18446744073709551616"] {
        assert!(matches!(parse_token_amount(bad, 2), Err(AppError::InvalidInput(_))), "{}", bad);
    }
    assert!(matches!(parse_token_amount("2", 19), Err(AppError::InvalidInput(_))));
    assert!(matches!(
        parse_token_amount("1.18446744073709551615", 1),
        Err(AppError::InvalidInput(_))
    ));
}

#[test]
fn text_order() {
    assert!(str_lt("abc", "abd"));
    assert!(str_lt("ab", "abc"));
    assert!(!str_lt("abc", "abc"));
    assert!(!str_lt("b", "abc"));
}

#[test]
fn integer_square_root() {
    assert_eq!(isqrt(0), 0);
    assert_eq!(isqrt(15), 3);
    assert_eq!(isqrt(16), 4);
    assert_eq!(isqrt(u128::MAX), u64::MAX);
}

#[test]
fn volatility_of_series() {
    assert_eq!(token_volatility(&series(&[5; 10])), 0);
    assert_eq!(token_volatility(&series(&[100])), 0);
    // returns +10%, -10%: mean 0, deviation 0.1 -> volatility 1.0
    assert_eq!(token_volatility(&series(&[100, 110, 99])), SCALE);
    // returns +1%, +1%: no deviation
    assert_eq!(token_volatility(&series(&[10_000, 10_100, 10_201])), 0);
}

#[test]
fn trend_and_sentiment_scores() {
    assert_eq!(trend_score(100, 100), SCALE / 2);
    assert_eq!(trend_score(150, 100), 750_000);
    assert_eq!(trend_score(500, 100), SCALE);
    assert_eq!(trend_score(5, 0), SCALE / 2);
    let flat = series(&[100; 30]);
    assert_eq!(calculate_sentiment_score(&flat, Some(SCALE)), (650_000, false));
    assert_eq!(calculate_sentiment_score(&flat, None), (500_000, true));
    let m = analyze_market_sentiment(&flat, Some(SCALE), None);
    assert_eq!(m.social_sentiment, SCALE);
    assert_eq!(m.news_sentiment, SCALE / 2);
    assert_eq!(m.trading_volume_sentiment, SCALE / 2);
    assert_eq!(m.overall_score, 2 * SCALE / 3);
    assert!(m.degraded);
}

#[test]
fn forecast_of_flat_series() {
    let flat = series(&[100; 30]);
    let (p, c) = forecast_price(&flat, 24);
    assert_eq!(p, 100);
    // 0.9 - 0.3 * 170 / 200 - 0 - 0.125 / 5
    assert_eq!(c, 900_000 - 255_000 - 25_000);
    let pred = predict_token_price(&flat);
    assert_eq!(pred.price_7d, 100);
    // 720 hours: scaling 810_810, penalty 255_000 + 162_162
    assert_eq!(pred.confidence, (620_000 + 545_000 + 482_838) / 3);
}

#[test]
fn forecast_follows_the_trend() {
    let rising: Vec<u64> = (1..=40).map(|i| i * 1_000).collect();
    let (p24, _) = forecast_price(&series(&rising), 24);
    let (p720, _) = forecast_price(&series(&rising), 720);
    assert!(p24 > 40_000);
    assert!(p720 > p24);
    let falling: Vec<u64> = (1..=40).rev().map(|i| i * 1_000).collect();
    let (f, _) = forecast_price(&series(&falling), 24);
    assert!(f < 1_000);
}

#[test]
fn percentage_change() {
    assert_eq!(calculate_percentage_change(0, 50), 0);
    assert_eq!(calculate_percentage_change(100, 150), 50 * SCALE as i128);
    assert_eq!(calculate_percentage_change(200, 150), -25 * SCALE as i128);
}

#[test]
fn series_validation() {
    assert!(check_series(&series(&[1, 2, 3])));
    let mut s = series(&[1, 2, 3]);
    s[2].timestamp = s[1].timestamp;
    assert!(!check_series(&s));
    assert!(!check_series(&series(&[u64::MAX])));
}

#[test]
fn cold_key_is_fetched_once() {
    let mut cache = HistoricalSeriesCache::new();
    let key = "token".to_string();
    assert_eq!(cache.get(&key, 0), CacheDecision::Fetch);
    for t in 1..10 {
        assert_eq!(cache.get(&key, t), CacheDecision::Join);
    }
    assert_eq!(cache.complete_fetch(&key, Some(series(&[1, 2])), 10), FetchOutcome::Fresh);
    assert_eq!(cache.get(&key, 20), CacheDecision::Serve);
    assert_eq!(cache.get(&key, 400), CacheDecision::Fetch);
    assert_eq!(cache.get(&key, 401), CacheDecision::Join);
    assert_eq!(cache.complete_fetch(&key, None, 402), FetchOutcome::Degraded);
    let other = "other".to_string();
    assert_eq!(cache.get(&other, 0), CacheDecision::Fetch);
    assert_eq!(cache.complete_fetch(&other, None, 1), FetchOutcome::DataUnavailable);
}

#[test]
fn test_token_analysis() {
    let mut service = AIService::new();
    let token = Token {
        address: "test_token".to_string(),
        symbol: "TEST".to_string(),
        name: "Test Token".to_string(),
        decimals: 18,
        total_supply: 1_000_000,
        price_usd: SCALE,
        market_cap_usd: 1_000_000 * SCALE,
        volume_24h: 100_000 * SCALE,
        price_change_24h: 5 * SCALE as i64,
    };
    assert!(matches!(service.analyze_token(&token, None, None, 0), Err(AppError::DataUnavailable(_))));
    assert_eq!(service.request_series(&token, 0), CacheDecision::Fetch);
    assert_eq!(service.request_series(&token, 0), CacheDecision::Join);
    assert!(matches!(service.analyze_token(&token, None, None, 0), Err(AppError::DataUnavailable(_))));
    let prices: Vec<u64> = (0..40).map(|i| SCALE + i * 1_000).collect();
    service.cache.complete_fetch(&token.address, Some(series(&prices)), 1);
    let analysis = service.analyze_token(&token, Some(600_000), None, 2).unwrap();
    assert!(analysis.sentiment_score <= SCALE);
    assert!(analysis.market_sentiment.overall_score <= SCALE);
    assert_eq!(analysis.technical_indicators.rsi, 100 * SCALE);
    assert!(!analysis.stale);
    // the refetch fails: the older series is served, marked stale
    assert_eq!(service.cache.get(&token.address, 1_000), CacheDecision::Fetch);
    assert_eq!(service.cache.complete_fetch(&token.address, None, 1_000), FetchOutcome::Degraded);
    let stale = service.analyze_token(&token, Some(600_000), None, 1_000).unwrap();
    assert!(stale.stale);
    assert_eq!(stale.technical_indicators.rsi, 100 * SCALE);
    assert_eq!(stale.sentiment_score, analysis.sentiment_score);
}

#[test]
fn malformed_cached_series_is_invalid_input() {
    let mut service = AIService::new();
    let key = "bad".to_string();
    service.cache.get(&key, 0);
    service.cache.complete_fetch(&key, Some(vec![PricePoint { timestamp: 0, price: u64::MAX, volume: 0 }]), 0);
    let token = Token {
        address: key,
        symbol: String::new(),
        name: String::new(),
        decimals: 0,
        total_supply: 0,
        price_usd: 0,
        market_cap_usd: 0,
        volume_24h: 0,
        price_change_24h: 0,
    };
    assert!(matches!(service.analyze_token(&token, None, None, 0), Err(AppError::InvalidInput(_))));
}

#[test]
fn wallet_signals_come_from_cached_series() {
    let mut service = AIService::new();
    let a = "a".to_string();
    let b = "b".to_string();
    service.cache.get(&a, 0);
    service.cache.complete_fetch(&a, Some(series(&[100, 110, 99])), 0);
    let mut w = Wallet::new("w".to_string(), 1, 0);
    w.tokens.push(TokenBalance { token_address: a.clone(), amount: 1, value_usd: 1 });
    w.tokens.push(TokenBalance { token_address: b.clone(), amount: 1, value_usd: 1 });
    assert!(matches!(service.wallet_signals(&w), Err(AppError::DataUnavailable(_))));
    service.cache.get(&b, 0);
    service.cache.complete_fetch(&b, Some(series(&[5; 30])), 0);
    let s = service.wallet_signals(&w).unwrap();
    assert_eq!(s[0], token_signals(&series(&[100, 110, 99])));
    assert_eq!(s[0].volatility, SCALE);
    assert_eq!(s[1], TokenSignals { volatility: 0, price_trend: 0 });
}

#[test]
fn price_trend_is_relative_ema_gap() {
    let rising: Vec<u64> = (1..=40).map(|i| i * 1_000).collect();
    let s = token_signals(&series(&rising));
    assert!(s.price_trend > 0);
    let falling: Vec<u64> = (1..=40).rev().map(|i| i * 1_000).collect();
    assert!(token_signals(&series(&falling)).price_trend < 0);
}

#[test]
fn eviction_keeps_in_flight_and_recent_entries() {
    let mut cache = HistoricalSeriesCache::new();
    let old = "old".to_string();
    let busy = "busy".to_string();
    let recent = "recent".to_string();
    assert_eq!(cache.get(&old, 0), CacheDecision::Fetch);
    cache.complete_fetch(&old, Some(series(&[1])), 1);
    assert_eq!(cache.get(&busy, 2), CacheDecision::Fetch);
    assert_eq!(cache.get(&recent, 4000), CacheDecision::Fetch);
    cache.complete_fetch(&recent, Some(series(&[5, 6])), 4000);
    cache.evict(5000);
    assert_eq!(cache.entries.len(), 2);
    assert_eq!(cache.entries[0].token_address, "busy");
    assert_eq!(cache.entries[1].token_address, "recent");
    assert_eq!(cache.series_at(1).len(), 2);
    assert_eq!(cache.get(&old, 5001), CacheDecision::Fetch);
    assert_eq!(cache.get(&busy, 5001), CacheDecision::Join);
}
