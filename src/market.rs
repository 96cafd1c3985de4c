use vstd::prelude::*;
use crate::indicators::{calculate_ema, calculate_technical_indicators, ema_of, last_price, rsi_of, signal_window, sma_of, TechnicalIndicators};
use crate::model::{within_limits, PricePoint, MAX_AMOUNT, MAX_POINTS, SCALE};
use crate::portfolio::TokenSignals;

verus! {

/// Largest size of a single period-over-period return that volatility
/// counts, in fixed point (1000%).
pub const MAX_RETURN: u64 = 10_000_000;

/// A standard deviation of returns of `SCALE / VOLATILITY_FACTOR` (10% per
/// period) or more counts as volatility 1.0.
pub const VOLATILITY_FACTOR: u64 = 10;

/// Integer square root: the largest `r` with `r * r <= n`.
pub open spec fn is_isqrt(n: int, r: int) -> bool {
    0 <= r && r * r <= n < (r + 1) * (r + 1)
}

/// The integer square root of `n >= 0`.
pub open spec fn isqrt_of(n: int) -> int {
    choose|r: int| is_isqrt(n, r)
}

proof fn lemma_isqrt_unique(n: int, a: int, b: int)
    requires
        is_isqrt(n, a),
        is_isqrt(n, b),
    ensures
        a == b,
{
    if a < b {
        assert((a + 1) * (a + 1) <= b * b) by (nonlinear_arith)
            requires 0 <= a, a + 1 <= b;
    }
    if b < a {
        assert((b + 1) * (b + 1) <= a * a) by (nonlinear_arith)
            requires 0 <= b, b + 1 <= a;
    }
}

/// Largest `r` with `r * r <= n`.
pub fn isqrt(n: u128) -> (r: u64)
    ensures
        is_isqrt(n as int, r as int),
        r == isqrt_of(n as int),
{
    let mut lo: u128 = 0;
    let mut hi: u128 = 0x1_0000_0000_0000_0000;
    assert(hi * hi > u128::MAX) by (nonlinear_arith)
        requires hi == 0x1_0000_0000_0000_0000u128;
    while hi - lo > 1
        invariant
            lo < hi <= 0x1_0000_0000_0000_0000u128,
            lo * lo <= n,
            n < hi * hi,
        decreases hi - lo,
    {
        let mid = lo + (hi - lo) / 2;
        assert(mid * mid <= u128::MAX) by (nonlinear_arith)
            requires mid < 0x1_0000_0000_0000_0000u128;
        if mid * mid <= n {
            lo = mid;
        } else {
            hi = mid;
        }
    }
    proof {
        assert(lo + 1 == hi);
        assert(is_isqrt(n as int, lo as int));
        lemma_isqrt_unique(n as int, lo as int, isqrt_of(n as int));
    }
    lo as u64
}

/// Size of the return from price `a` to price `b`, in fixed point, capped
/// at `MAX_RETURN`; 0 when `a` is 0.
pub open spec fn return_size(a: int, b: int) -> int {
    if a == 0 {
        0
    } else {
        let d = if b >= a { b - a } else { a - b };
        let x = d * SCALE / a;
        if x > MAX_RETURN { MAX_RETURN as int } else { x }
    }
}

/// The signed return from price `a` to price `b`.
pub open spec fn signed_return(a: int, b: int) -> int {
    if b >= a { return_size(a, b) } else { -return_size(a, b) }
}

/// Sum of the returns over the first `n` points of `s`.
pub open spec fn return_sum(s: Seq<PricePoint>, n: nat) -> int
    decreases n,
{
    if n <= 1 {
        0
    } else {
        return_sum(s, (n - 1) as nat) + signed_return(s[n - 2].price as int, s[n - 1].price as int)
    }
}

/// Sum of the squared returns over the first `n` points of `s`.
pub open spec fn return_square_sum(s: Seq<PricePoint>, n: nat) -> int
    decreases n,
{
    if n <= 1 {
        0
    } else {
        let r = signed_return(s[n - 2].price as int, s[n - 1].price as int);
        return_square_sum(s, (n - 1) as nat) + r * r
    }
}

/// Population variance of the returns of `s`, times the square of their
/// count: `m * sum(r^2) - sum(r)^2` (never below 0).
pub open spec fn scaled_variance(s: Seq<PricePoint>) -> int {
    let m = s.len() - 1;
    let v = m * return_square_sum(s, s.len()) - return_sum(s, s.len()) * return_sum(s, s.len());
    if v < 0 { 0 } else { v }
}

/// Volatility of a series: the standard deviation of its period-over-period
/// returns, times `VOLATILITY_FACTOR`, at most 1.0; 0 with fewer than two
/// points.
pub open spec fn volatility_of(s: Seq<PricePoint>) -> int {
    if s.len() < 2 {
        0
    } else {
        let m = s.len() - 1;
        let q = isqrt_of(scaled_variance(s) / (m * m));
        if q * VOLATILITY_FACTOR > SCALE {
            SCALE as int
        } else {
            q * VOLATILITY_FACTOR
        }
    }
}

/// Normalised volatility of a series, between 0 and 1.0.
pub fn token_volatility(data: &[PricePoint]) -> (r: u64)
    requires
        within_limits(data@),
    ensures
        r == volatility_of(data@),
        r <= SCALE,
{
    let n = data.len();
    if n < 2 {
        return 0;
    }
    let mut sum: i128 = 0;
    let mut squares: u128 = 0;
    let mut i: usize = 1;
    while i < n
        invariant
            1 <= i <= n == data@.len(),
            n <= MAX_POINTS,
            within_limits(data@),
            sum == return_sum(data@, i as nat),
            squares == return_square_sum(data@, i as nat),
            -(i * MAX_RETURN) <= sum <= i * MAX_RETURN,
            0 <= squares <= i * MAX_RETURN * MAX_RETURN,
        decreases n - i,
    {
        let a = data[i - 1].price;
        let b = data[i].price;
        let size: u64 = if a == 0 {
            0
        } else {
            let d = if b >= a { b - a } else { a - b };
            assert(d * SCALE <= MAX_AMOUNT * SCALE) by (nonlinear_arith)
                requires d <= MAX_AMOUNT;
            let x = (d as u128 * SCALE as u128) / a as u128;
            if x > MAX_RETURN as u128 { MAX_RETURN } else { x as u64 }
        };
        assert(size == return_size(a as int, b as int));
        assert(size * size <= MAX_RETURN * MAX_RETURN) by (nonlinear_arith)
            requires size <= MAX_RETURN;
        assert((i + 1) * MAX_RETURN * MAX_RETURN == i * MAX_RETURN * MAX_RETURN + MAX_RETURN * MAX_RETURN) by (nonlinear_arith);
        assert(i * MAX_RETURN * MAX_RETURN <= MAX_POINTS * MAX_RETURN * MAX_RETURN) by (nonlinear_arith)
            requires i <= MAX_POINTS;
        assert(signed_return(a as int, b as int) * signed_return(a as int, b as int) == size * size) by (nonlinear_arith)
            requires signed_return(a as int, b as int) == size || signed_return(a as int, b as int) == -size;
        if b >= a {
            sum = sum + size as i128;
        } else {
            sum = sum - size as i128;
        }
        squares = squares + (size as u128) * (size as u128);
        i = i + 1;
    }
    let m = (n - 1) as u128;
    let ms = m as i128;
    assert(m * squares <= MAX_POINTS * (MAX_POINTS * MAX_RETURN * MAX_RETURN)) by (nonlinear_arith)
        requires m <= MAX_POINTS, squares <= n * MAX_RETURN * MAX_RETURN, n <= MAX_POINTS;
    assert(sum * sum <= (MAX_POINTS * MAX_RETURN) * (MAX_POINTS * MAX_RETURN)) by (nonlinear_arith)
        requires -(n * MAX_RETURN) <= sum <= n * MAX_RETURN, n <= MAX_POINTS;
    assert(sum * sum >= 0) by (nonlinear_arith);
    let left: u128 = m * squares;
    let right: u128 = (sum * sum) as u128;
    let v: u128 = if left >= right { left - right } else { 0 };
    assert(m * m > 0) by (nonlinear_arith)
        requires m >= 1;
    assert(m * m <= MAX_POINTS * MAX_POINTS) by (nonlinear_arith)
        requires m <= MAX_POINTS;
    let q = isqrt(v / (m * m));
    let root: u64 = if q as u128 * VOLATILITY_FACTOR as u128 > SCALE as u128 {
        SCALE
    } else {
        q * VOLATILITY_FACTOR
    };
    assert(m as int * return_square_sum(data@, n as nat) - return_sum(data@, n as nat) * return_sum(data@, n as nat) == left as int - right as int);
    root
}


/// Relative gap of the 12-period EMA over the 26-period EMA, in signed
/// fixed point, rounded toward zero and capped at `MAX_RETURN` either way;
/// 0 when the long EMA is 0.
pub open spec fn relative_trend_of(s: Seq<PricePoint>) -> int {
    let short = ema_of(s, 12);
    let long = ema_of(s, 26);
    if long == 0 {
        0
    } else {
        let d = if short >= long { short - long } else { long - short };
        let x = if d * SCALE / long > MAX_RETURN { MAX_RETURN as int } else { d * SCALE / long };
        if short >= long { x } else { -x }
    }
}

/// The market signals of a token, from its series.
pub open spec fn signals_of(s: Seq<PricePoint>) -> TokenSignals {
    TokenSignals { volatility: volatility_of(s) as u64, price_trend: relative_trend_of(s) as i64 }
}

/// Volatility and price trend of a token's series.
pub fn token_signals(data: &[PricePoint]) -> (r: TokenSignals)
    requires
        within_limits(data@),
    ensures
        r == signals_of(data@),
{
    let volatility = token_volatility(data);
    let short = calculate_ema(data, 12);
    let long = calculate_ema(data, 26);
    let price_trend: i64 = if long == 0 {
        0
    } else {
        let d = if short >= long { short - long } else { long - short };
        assert(d * SCALE <= MAX_AMOUNT * SCALE) by (nonlinear_arith)
            requires d <= MAX_AMOUNT;
        let q = (d as u128 * SCALE as u128) / long as u128;
        let x: u64 = if q > MAX_RETURN as u128 { MAX_RETURN } else { q as u64 };
        if short >= long { x as i64 } else { -(x as i64) }
    };
    TokenSignals { volatility, price_trend }
}

/// A trend in `[0, 1.0]` from a short and a long average: 0.5 plus half the
/// relative gap between them, which is `short / (2 * long)`, at most 1.0;
/// neutral 0.5 when the long average is 0.
pub open spec fn trend_score_of(short: int, long: int) -> int {
    if long == 0 {
        (SCALE / 2) as int
    } else {
        let t = short * SCALE / (2 * long);
        if t > SCALE { SCALE as int } else { t }
    }
}

/// Trend score of two moving averages.
pub fn trend_score(short: u64, long: u64) -> (r: u64)
    requires
        short <= MAX_AMOUNT,
    ensures
        r == trend_score_of(short as int, long as int),
        r <= SCALE,
{
    if long == 0 {
        return SCALE / 2;
    }
    assert(short * SCALE <= MAX_AMOUNT * SCALE) by (nonlinear_arith)
        requires short <= MAX_AMOUNT;
    let t = (short as u128 * SCALE as u128) / (2 * long as u128);
    if t > SCALE as u128 { SCALE } else { t as u64 }
}

/// The volumes of a series, laid out as a price series.
pub open spec fn volume_series(s: Seq<PricePoint>) -> Seq<PricePoint> {
    s.map_values(|p: PricePoint| PricePoint { timestamp: p.timestamp, price: p.volume, volume: p.volume })
}

fn volumes_as_prices(data: &[PricePoint]) -> (r: Vec<PricePoint>)
    requires
        within_limits(data@),
    ensures
        r@ == volume_series(data@),
        within_limits(r@),
{
    let mut out: Vec<PricePoint> = Vec::new();
    let mut i: usize = 0;
    while i < data.len()
        invariant
            i <= data@.len(),
            within_limits(data@),
            out@ =~= volume_series(data@).subrange(0, i as int),
        decreases data@.len() - i,
    {
        let p = data[i];
        out.push(PricePoint { timestamp: p.timestamp, price: p.volume, volume: p.volume });
        i = i + 1;
    }
    assert(out@ =~= volume_series(data@));
    assert forall|i: int| 0 <= i < out@.len() implies #[trigger] out@[i].price <= MAX_AMOUNT
        && out@[i].volume <= MAX_AMOUNT by {
        assert(data@[i].price <= MAX_AMOUNT && data@[i].volume <= MAX_AMOUNT);
    }
    out
}

/// Price trend of a series: its 12-period EMA against its 26-period EMA.
pub open spec fn price_trend_of(s: Seq<PricePoint>) -> int {
    trend_score_of(ema_of(s, 12), ema_of(s, 26))
}

/// Volume trend of a series: the same, over its volumes.
pub open spec fn volume_trend_of(s: Seq<PricePoint>) -> int {
    price_trend_of(volume_series(s))
}

/// Price trend score of a series, in `[0, 1.0]`.
pub fn analyze_price_trend(data: &[PricePoint]) -> (r: u64)
    requires
        within_limits(data@),
    ensures
        r == price_trend_of(data@),
        r <= SCALE,
{
    let short = calculate_ema(data, 12);
    let long = calculate_ema(data, 26);
    trend_score(short, long)
}

/// Volume trend score of a series, in `[0, 1.0]`.
pub fn analyze_volume_trend(data: &[PricePoint]) -> (r: u64)
    requires
        within_limits(data@),
    ensures
        r == volume_trend_of(data@),
        r <= SCALE,
{
    let volumes = volumes_as_prices(data);
    analyze_price_trend(volumes.as_slice())
}

/// A provider's score, at most 1.0, or neutral 0.5 when the provider failed.
pub open spec fn score_or_neutral(x: Option<u64>) -> int {
    match x {
        Some(v) => if v > SCALE { SCALE as int } else { v as int },
        None => (SCALE / 2) as int,
    }
}

fn provider_score(x: Option<u64>) -> (r: u64)
    ensures
        r == score_or_neutral(x),
        r <= SCALE,
{
    match x {
        Some(v) => if v > SCALE { SCALE } else { v },
        None => SCALE / 2,
    }
}

/// Sentiment: `0.4 * price + 0.3 * volume + 0.3 * social`, within `[0, 1.0]`.
pub open spec fn sentiment_of(price: int, volume: int, social: int) -> int {
    let x = (4 * price + 3 * volume + 3 * social) / 10;
    if x > SCALE { SCALE as int } else { x }
}

/// Combined sentiment score of a token, with whether the social score was
/// replaced by the neutral value.
pub fn calculate_sentiment_score(data: &[PricePoint], social: Option<u64>) -> (r: (u64, bool))
    requires
        within_limits(data@),
    ensures
        r.0 == sentiment_of(price_trend_of(data@), volume_trend_of(data@), score_or_neutral(social)),
        r.0 <= SCALE,
        r.1 == social is None,
{
    let p = analyze_price_trend(data);
    let v = analyze_volume_trend(data);
    let s = provider_score(social);
    let x = (4 * p + 3 * v + 3 * s) / 10;
    (if x > SCALE { SCALE } else { x }, social.is_none())
}

/// Market sentiment from the social, news and volume factors.
pub struct MarketSentiment {
    pub overall_score: u64,
    pub social_sentiment: u64,
    pub news_sentiment: u64,
    pub trading_volume_sentiment: u64,
    pub degraded: bool,
}

/// Market sentiment: each factor, and their mean as the overall score. A
/// failed provider counts as neutral 0.5 and marks the result degraded.
pub fn analyze_market_sentiment(data: &[PricePoint], social: Option<u64>, news: Option<u64>) -> (r:
    MarketSentiment)
    requires
        within_limits(data@),
    ensures
        r.social_sentiment == score_or_neutral(social),
        r.news_sentiment == score_or_neutral(news),
        r.trading_volume_sentiment == volume_trend_of(data@),
        r.overall_score == (r.social_sentiment + r.news_sentiment + r.trading_volume_sentiment) / 3,
        r.overall_score <= SCALE,
        r.degraded == (social is None || news is None),
{
    let social_sentiment = provider_score(social);
    let news_sentiment = provider_score(news);
    let volume_sentiment = analyze_volume_trend(data);
    let overall_score = (social_sentiment + news_sentiment + volume_sentiment) / 3;
    MarketSentiment {
        overall_score,
        social_sentiment,
        news_sentiment,
        trading_volume_sentiment: volume_sentiment,
        degraded: social.is_none() || news.is_none(),
    }
}

/// Hours over which the trend is scaled by one half.
pub const HORIZON_HALF: u64 = 168;

/// Confidence before penalties (0.9).
pub const BASE_CONFIDENCE: u64 = 900_000;

/// Number of points below which the history counts as short.
pub const FULL_HISTORY: usize = 200;

/// Largest penalty for a short history (0.3).
pub const HISTORY_PENALTY: u64 = 300_000;

/// How strongly a horizon of `h` hours carries the trend:
/// `h / (h + HORIZON_HALF)`, increasing and sub-linear, below 1.0.
pub open spec fn horizon_scaling_of(h: int) -> int {
    h * SCALE / (h + HORIZON_HALF)
}

/// The price predicted from the current price and the 12- and 26-period
/// EMAs: the current price moved by the relative gap between the EMAs times
/// the horizon scaling; never below 0 nor above `MAX_AMOUNT`.
pub open spec fn predicted_price_of(current: int, short: int, long: int, sc: int) -> int {
    if long == 0 {
        current
    } else if short >= long {
        let up = current * (short - long) * sc / (long * SCALE);
        if current + up > MAX_AMOUNT { MAX_AMOUNT as int } else { current + up }
    } else {
        let down = current * (long - short) * sc / (long * SCALE);
        if down > current { 0 } else { current - down }
    }
}

/// Confidence of a forecast: `BASE_CONFIDENCE` less a penalty for a short
/// history, half the volatility, and a fifth of the horizon scaling; not
/// below 0.
pub open spec fn confidence_of(n: int, volatility: int, sc: int) -> int {
    let history = if n < FULL_HISTORY { HISTORY_PENALTY * (FULL_HISTORY - n) / (FULL_HISTORY as int) } else { 0 };
    let c = BASE_CONFIDENCE - history - volatility / 2 - sc / 5;
    if c < 0 { 0 } else { c }
}

/// Forecast of the price `horizon_hours` ahead, and its confidence.
pub fn forecast_price(data: &[PricePoint], horizon_hours: u64) -> (r: (u64, u64))
    requires
        within_limits(data@),
    ensures
        r.0 == predicted_price_of(
            last_price(data@),
            ema_of(data@, 12),
            ema_of(data@, 26),
            horizon_scaling_of(horizon_hours as int),
        ),
        r.1 == confidence_of(data@.len() as int, volatility_of(data@), horizon_scaling_of(horizon_hours as int)),
        r.1 <= SCALE,
{
    let n = data.len();
    let current: u64 = if n == 0 { 0 } else { data[n - 1].price };
    let short = calculate_ema(data, 12);
    let long = calculate_ema(data, 26);
    let h = horizon_hours as u128;
    assert(h * SCALE <= 0xFFFF_FFFF_FFFF_FFFFu128 * SCALE) by (nonlinear_arith)
        requires h <= 0xFFFF_FFFF_FFFF_FFFFu128;
    let sc = (h * SCALE as u128) / (h + HORIZON_HALF as u128);
    assert(h * SCALE / (h + HORIZON_HALF) <= SCALE) by (nonlinear_arith)
        requires h >= 0;
    let price: u64 = if long == 0 {
        current
    } else if short >= long {
        assert(current * (short - long) <= MAX_AMOUNT * MAX_AMOUNT) by (nonlinear_arith)
            requires current <= MAX_AMOUNT, short - long <= MAX_AMOUNT, short >= long;
        assert(current * (short - long) * sc <= MAX_AMOUNT * MAX_AMOUNT * SCALE) by (nonlinear_arith)
            requires current * (short - long) <= MAX_AMOUNT * MAX_AMOUNT, sc <= SCALE, current * (short - long) >= 0;
        let up = (current as u128 * (short - long) as u128 * sc) / (long as u128 * SCALE as u128);
        if current as u128 + up > MAX_AMOUNT as u128 { MAX_AMOUNT } else { (current as u128 + up) as u64 }
    } else {
        assert(current * (long - short) <= MAX_AMOUNT * MAX_AMOUNT) by (nonlinear_arith)
            requires current <= MAX_AMOUNT, long - short <= MAX_AMOUNT, short < long;
        assert(current * (long - short) * sc <= MAX_AMOUNT * MAX_AMOUNT * SCALE) by (nonlinear_arith)
            requires current * (long - short) <= MAX_AMOUNT * MAX_AMOUNT, sc <= SCALE, current * (long - short) >= 0;
        let down = (current as u128 * (long - short) as u128 * sc) / (long as u128 * SCALE as u128);
        if down > current as u128 { 0 } else { current - down as u64 }
    };
    let vol = token_volatility(data);
    let history: u64 = if n < FULL_HISTORY {
        HISTORY_PENALTY * (FULL_HISTORY - n) as u64 / FULL_HISTORY as u64
    } else {
        0
    };
    let penalty: u64 = history + vol / 2 + (sc as u64) / 5;
    let confidence: u64 = if penalty > BASE_CONFIDENCE { 0 } else { BASE_CONFIDENCE - penalty };
    (price, confidence)
}

/// Price forecasts at one day, one week and thirty days.
pub struct PricePrediction {
    pub price_24h: u64,
    pub price_7d: u64,
    pub price_30d: u64,
    pub confidence: u64,
}

/// Forecasts at 24, 168 and 720 hours, with the mean of their confidences.
pub fn predict_token_price(data: &[PricePoint]) -> (r: PricePrediction)
    requires
        within_limits(data@),
    ensures
        r.price_24h == forecast_price_spec(data@, 24).0,
        r.price_7d == forecast_price_spec(data@, 168).0,
        r.price_30d == forecast_price_spec(data@, 720).0,
        r.confidence == (forecast_price_spec(data@, 24).1 + forecast_price_spec(data@, 168).1
            + forecast_price_spec(data@, 720).1) / 3,
        r.confidence <= SCALE,
{
    let (price_24h, conf_24h) = forecast_price(data, 24);
    let (price_7d, conf_7d) = forecast_price(data, 168);
    let (price_30d, conf_30d) = forecast_price(data, 720);
    PricePrediction { price_24h, price_7d, price_30d, confidence: (conf_24h + conf_7d + conf_30d) / 3 }
}

/// What `forecast_price` returns: the predicted price and the confidence.
pub open spec fn forecast_price_spec(s: Seq<PricePoint>, h: int) -> (int, int) {
    let sc = horizon_scaling_of(h);
    (
        predicted_price_of(last_price(s), ema_of(s, 12), ema_of(s, 26), sc),
        confidence_of(s.len() as int, volatility_of(s), sc),
    )
}

/// The analysis of one token.
pub struct TokenAnalysis {
    pub sentiment_score: u64,
    pub price_prediction: PricePrediction,
    pub market_sentiment: MarketSentiment,
    pub technical_indicators: TechnicalIndicators,
    /// The series was older than the cache's freshness time.
    pub stale: bool,
}

/// `a` is the analysis of a token with series `s` and provider scores
/// `social` and `news` (`None` where a provider failed).
pub open spec fn is_token_analysis(
    s: Seq<PricePoint>,
    social: Option<u64>,
    news: Option<u64>,
    a: TokenAnalysis,
) -> bool {
    &&& a.sentiment_score == sentiment_of(
        price_trend_of(s),
        volume_trend_of(s),
        score_or_neutral(social),
    )
    &&& a.sentiment_score <= SCALE
    &&& a.price_prediction.price_24h == forecast_price_spec(s, 24).0
    &&& a.price_prediction.price_7d == forecast_price_spec(s, 168).0
    &&& a.price_prediction.price_30d == forecast_price_spec(s, 720).0
    &&& a.price_prediction.confidence == (forecast_price_spec(s, 24).1 + forecast_price_spec(s, 168).1
        + forecast_price_spec(s, 720).1) / 3
    &&& a.market_sentiment.social_sentiment == score_or_neutral(social)
    &&& a.market_sentiment.news_sentiment == score_or_neutral(news)
    &&& a.market_sentiment.trading_volume_sentiment == volume_trend_of(s)
    &&& a.market_sentiment.overall_score == (a.market_sentiment.social_sentiment
        + a.market_sentiment.news_sentiment + a.market_sentiment.trading_volume_sentiment) / 3
    &&& a.market_sentiment.overall_score <= SCALE
    &&& a.market_sentiment.degraded == (social is None || news is None)
    &&& a.technical_indicators.rsi == rsi_of(s)
    &&& a.technical_indicators.macd.value == ema_of(s, 12) - ema_of(s, 26)
    &&& a.technical_indicators.macd.signal == ema_of(signal_window(s), 9)
    &&& a.technical_indicators.macd.histogram == a.technical_indicators.macd.value
        - a.technical_indicators.macd.signal
    &&& a.technical_indicators.moving_averages.ma_20 == sma_of(s, 20)
    &&& a.technical_indicators.moving_averages.ma_50 == sma_of(s, 50)
    &&& a.technical_indicators.moving_averages.ma_200 == sma_of(s, 200)
}

/// Sentiment, forecast, market sentiment and indicators of a token from its
/// series and its providers' scores (`None` where a provider failed).
pub fn analyze_token(data: &[PricePoint], social: Option<u64>, news: Option<u64>, stale: bool) -> (r:
    TokenAnalysis)
    requires
        within_limits(data@),
    ensures
        is_token_analysis(data@, social, news, r),
        r.stale == stale,
{
    let (sentiment_score, _) = calculate_sentiment_score(data, social);
    let price_prediction = predict_token_price(data);
    let market_sentiment = analyze_market_sentiment(data, social, news);
    let technical_indicators = calculate_technical_indicators(data);
    TokenAnalysis {
        sentiment_score,
        price_prediction,
        market_sentiment,
        technical_indicators,
        stale,
    }
}

} // verus!
