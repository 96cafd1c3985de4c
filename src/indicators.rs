use vstd::prelude::*;
use crate::model::{PricePoint, within_limits, MAX_AMOUNT, MAX_POINTS, SCALE};

verus! {

/// Sum of the prices of `s`.
pub open spec fn price_sum(s: Seq<PricePoint>) -> int
    decreases s.len(),
{
    if s.len() == 0 {
        0
    } else {
        price_sum(s.drop_last()) + s.last().price
    }
}

/// The last price of a series, or 0 for an empty one.
pub open spec fn last_price(s: Seq<PricePoint>) -> int {
    if s.len() == 0 {
        0
    } else {
        s.last().price as int
    }
}

/// Simple moving average: the mean of the last `period` prices, rounded
/// down; the last price when the series is shorter than `period`.
pub open spec fn sma_of(s: Seq<PricePoint>, period: nat) -> int {
    if s.len() < period {
        last_price(s)
    } else {
        price_sum(s.subrange(s.len() - period, s.len() as int)) / (period as int)
    }
}

proof fn lemma_price_sum_bound(s: Seq<PricePoint>)
    requires
        forall|i: int| 0 <= i < s.len() ==> #[trigger] s[i].price <= MAX_AMOUNT,
    ensures
        0 <= price_sum(s) <= s.len() * MAX_AMOUNT,
    decreases s.len(),
{
    if s.len() > 0 {
        let t = s.drop_last();
        assert forall|i: int| 0 <= i < t.len() implies #[trigger] t[i].price <= MAX_AMOUNT by {
            assert(t[i] == s[i]);
        }
        lemma_price_sum_bound(t);
        assert(s.len() * MAX_AMOUNT == t.len() * MAX_AMOUNT + MAX_AMOUNT) by (nonlinear_arith)
            requires s.len() == t.len() + 1;
    }
}

/// Simple moving average of the last `period` prices.
pub fn calculate_sma(data: &[PricePoint], period: usize) -> (r: u64)
    requires
        period >= 1,
        within_limits(data@),
    ensures
        r == sma_of(data@, period as nat),
        data@.len() < period ==> r == last_price(data@),
{
    let n = data.len();
    if n < period {
        if n == 0 {
            return 0;
        }
        return data[n - 1].price;
    }
    let start = n - period;
    let mut sum: u128 = 0;
    let mut i = start;
    while i < n
        invariant
            start <= i <= n,
            n == data@.len(),
            within_limits(data@),
            sum == price_sum(data@.subrange(start as int, i as int)),
            sum <= (i - start) * MAX_AMOUNT,
        decreases n - i,
    {
        let ghost prev = data@.subrange(start as int, i as int);
        let ghost next = data@.subrange(start as int, i + 1);
        assert(next.drop_last() =~= prev);
        assert(data@[i as int].price <= MAX_AMOUNT);
        sum = sum + data[i].price as u128;
        assert(sum <= (i + 1 - start) * MAX_AMOUNT) by (nonlinear_arith)
            requires sum <= (i - start) * MAX_AMOUNT + MAX_AMOUNT, i >= start;
        i = i + 1;
    }
    proof {
        lemma_price_sum_bound(data@.subrange(start as int, n as int));
        assert(data@.subrange(start as int, n as int).len() == period);
        assert(sum as int / (period as int) <= MAX_AMOUNT) by (nonlinear_arith)
            requires sum <= period * MAX_AMOUNT, period >= 1;
    }
    (sum / period as u128) as u64
}


/// Exponential smoothing over the first `n` points of `s`: seeded with the
/// first price, each later price `p` moves the average `e` to
/// `(2p + (period - 1)e) / (period + 1)`, rounded down; this is
/// `e + (p - e) * 2 / (period + 1)`.
pub open spec fn ema_fold(s: Seq<PricePoint>, period: nat, n: nat) -> int
    decreases n,
{
    if n <= 1 {
        s[0].price as int
    } else {
        (2 * s[n - 1].price + (period - 1) * ema_fold(s, period, (n - 1) as nat)) / (period as int
            + 1)
    }
}

/// Exponential moving average over the whole series; the last price when the
/// series is shorter than `period` (0 when it is empty).
pub open spec fn ema_of(s: Seq<PricePoint>, period: nat) -> int {
    if s.len() == 0 || s.len() < period {
        last_price(s)
    } else {
        ema_fold(s, period, s.len())
    }
}

proof fn lemma_ema_step_bound(p: int, e: int, k: int)
    requires
        0 <= p <= MAX_AMOUNT,
        0 <= e <= MAX_AMOUNT,
        k >= 1,
    ensures
        0 <= (2 * p + (k - 1) * e) / (k + 1) <= MAX_AMOUNT,
{
    assert(0 <= 2 * p + (k - 1) * e <= (k + 1) * MAX_AMOUNT) by (nonlinear_arith)
        requires 0 <= p <= MAX_AMOUNT, 0 <= e <= MAX_AMOUNT, k >= 1;
    assert((2 * p + (k - 1) * e) / (k + 1) <= MAX_AMOUNT) by (nonlinear_arith)
        requires 0 <= 2 * p + (k - 1) * e <= (k + 1) * MAX_AMOUNT, k >= 1;
    assert(0 <= (2 * p + (k - 1) * e) / (k + 1)) by (nonlinear_arith)
        requires 0 <= 2 * p + (k - 1) * e, k >= 1;
}

/// The exponential moving average of the points of `data` from `start` on.
fn ema_from(data: &[PricePoint], start: usize, period: usize) -> (r: u64)
    requires
        period >= 1,
        start <= data@.len(),
        within_limits(data@),
    ensures
        r == ema_of(data@.subrange(start as int, data@.len() as int), period as nat),
        r <= MAX_AMOUNT,
{
    let n = data.len();
    let ghost s = data@.subrange(start as int, n as int);
    if n - start < period || n == start {
        if n == start {
            return 0;
        }
        return data[n - 1].price;
    }
    let mut ema: u64 = data[start].price;
    let mut i = start + 1;
    while i < n
        invariant
            start < i <= n,
            n == data@.len(),
            s == data@.subrange(start as int, n as int),
            within_limits(data@),
            period >= 1,
            ema == ema_fold(s, period as nat, (i - start) as nat),
            ema <= MAX_AMOUNT,
        decreases n - i,
    {
        let p = data[i].price;
        assert(s[(i - start) as int] == data@[i as int]);
        assert(p <= MAX_AMOUNT);
        proof {
            lemma_ema_step_bound(p as int, ema as int, period as int);
        }
        assert((period as u128 - 1) * (ema as u128) <= (period as u128) * MAX_AMOUNT) by (nonlinear_arith)
            requires ema <= MAX_AMOUNT, period >= 1;
        assert((period as u128) * MAX_AMOUNT <= 0xFFFF_FFFF_FFFF_FFFFu128 * MAX_AMOUNT) by (nonlinear_arith)
            requires period <= 0xFFFF_FFFF_FFFF_FFFFu128;
        let num: u128 = 2 * (p as u128) + (period as u128 - 1) * (ema as u128);
        ema = (num / (period as u128 + 1)) as u64;
        i = i + 1;
    }
    ema
}

/// Exponential moving average with multiplier `2 / (period + 1)`, applied
/// across the entire series.
pub fn calculate_ema(data: &[PricePoint], period: usize) -> (r: u64)
    requires
        period >= 1,
        within_limits(data@),
    ensures
        r == ema_of(data@, period as nat),
        data@.len() < period ==> r == last_price(data@),
        r <= MAX_AMOUNT,
{
    assert(data@.subrange(0, data@.len() as int) =~= data@);
    ema_from(data, 0, period)
}


/// Number of price changes that RSI looks back over.
pub const RSI_PERIOD: usize = 14;

/// Sum of the upward price changes between consecutive points of `s`.
pub open spec fn gain_sum(s: Seq<PricePoint>) -> int
    decreases s.len(),
{
    if s.len() <= 1 {
        0
    } else {
        let d = s.last().price - s[s.len() - 2].price;
        gain_sum(s.drop_last()) + if d >= 0 { d } else { 0 }
    }
}

/// Sum of the downward price changes between consecutive points of `s`, as
/// positive amounts.
pub open spec fn loss_sum(s: Seq<PricePoint>) -> int
    decreases s.len(),
{
    if s.len() <= 1 {
        0
    } else {
        let d = s.last().price - s[s.len() - 2].price;
        loss_sum(s.drop_last()) + if d < 0 { -d } else { 0 }
    }
}

/// Relative strength index in fixed point, over all price changes of the
/// series: `100 - 100 / (1 + avg_gain / avg_loss)`, which is
/// `100 * gains / (gains + losses)`, rounded down. 50 for a series with fewer
/// than `RSI_PERIOD + 1` points, and 100 when nothing was lost.
pub open spec fn rsi_of(s: Seq<PricePoint>) -> int {
    if s.len() < RSI_PERIOD + 1 {
        50 * SCALE
    } else if loss_sum(s) == 0 {
        100 * SCALE
    } else {
        100 * SCALE * gain_sum(s) / (gain_sum(s) + loss_sum(s))
    }
}

proof fn lemma_rsi_bound(g: int, l: int)
    requires
        g >= 0,
        l > 0,
    ensures
        0 <= 100 * SCALE * g / (g + l) <= 100 * SCALE,
{
    assert(100 * SCALE * g <= 100 * SCALE * (g + l)) by (nonlinear_arith)
        requires g >= 0, l > 0;
    assert(100 * SCALE * g / (g + l) <= 100 * SCALE) by (nonlinear_arith)
        requires 100 * SCALE * g <= 100 * SCALE * (g + l), g + l > 0;
    assert(0 <= 100 * SCALE * g / (g + l)) by (nonlinear_arith)
        requires g >= 0, g + l > 0;
}

/// Relative strength index, in fixed point between 0 and 100.
pub fn calculate_rsi(data: &[PricePoint]) -> (r: u64)
    requires
        within_limits(data@),
    ensures
        r == rsi_of(data@),
        r <= 100 * SCALE,
        data@.len() < RSI_PERIOD + 1 ==> r == 50 * SCALE,
{
    let n = data.len();
    if n < RSI_PERIOD + 1 {
        return 50 * SCALE;
    }
    let mut gains: u128 = 0;
    let mut losses: u128 = 0;
    let mut i: usize = 1;
    assert(data@.subrange(0, 1).len() == 1);
    while i < n
        invariant
            1 <= i <= n,
            n == data@.len(),
            within_limits(data@),
            gains == gain_sum(data@.subrange(0, i as int)),
            losses == loss_sum(data@.subrange(0, i as int)),
            gains <= i * MAX_AMOUNT,
            losses <= i * MAX_AMOUNT,
        decreases n - i,
    {
        let ghost prev = data@.subrange(0, i as int);
        let ghost next = data@.subrange(0, i + 1);
        assert(next.drop_last() =~= prev);
        assert(next.last() == data@[i as int] && next[next.len() - 2] == data@[i - 1]);
        let cur = data[i].price;
        let before = data[i - 1].price;
        assert(cur <= MAX_AMOUNT && before <= MAX_AMOUNT);
        if cur >= before {
            gains = gains + (cur - before) as u128;
        } else {
            losses = losses + (before - cur) as u128;
        }
        assert((i + 1) * MAX_AMOUNT == i * MAX_AMOUNT + MAX_AMOUNT) by (nonlinear_arith);
        i = i + 1;
    }
    assert(data@.subrange(0, n as int) =~= data@);
    if losses == 0 {
        return 100 * SCALE;
    }
    proof {
        lemma_rsi_bound(gains as int, losses as int);
        assert(gains <= MAX_POINTS * MAX_AMOUNT) by (nonlinear_arith)
            requires gains <= n * MAX_AMOUNT, n <= MAX_POINTS;
    }
    ((100 * SCALE as u128 * gains) / (gains + losses)) as u64
}

/// The MACD of a series: the difference of its 12- and 26-period EMAs, a
/// signal line taken as the 9-period EMA of the series without its first 14
/// points, and their difference.
pub struct MACD {
    pub value: i64,
    pub signal: u64,
    pub histogram: i64,
}

/// Simple moving averages over 20, 50 and 200 points.
pub struct MovingAverages {
    pub ma_20: u64,
    pub ma_50: u64,
    pub ma_200: u64,
}

/// The indicators computed for a token's series.
pub struct TechnicalIndicators {
    pub rsi: u64,
    pub macd: MACD,
    pub moving_averages: MovingAverages,
}

/// Number of leading points that the MACD signal line leaves out.
pub const SIGNAL_SKIP: usize = 14;

/// The series that the MACD signal line is computed over: `s` without its
/// first `SIGNAL_SKIP` points (empty when it is shorter).
pub open spec fn signal_window(s: Seq<PricePoint>) -> Seq<PricePoint> {
    if s.len() <= SIGNAL_SKIP {
        Seq::empty()
    } else {
        s.subrange(SIGNAL_SKIP as int, s.len() as int)
    }
}

/// MACD line, signal line and histogram.
pub fn calculate_macd(data: &[PricePoint]) -> (r: MACD)
    requires
        within_limits(data@),
    ensures
        r.value == ema_of(data@, 12) - ema_of(data@, 26),
        r.signal == ema_of(signal_window(data@), 9),
        r.histogram == r.value - r.signal,
{
    let ema_12 = calculate_ema(data, 12);
    let ema_26 = calculate_ema(data, 26);
    let value = ema_12 as i64 - ema_26 as i64;
    let start = if data.len() < SIGNAL_SKIP { data.len() } else { SIGNAL_SKIP };
    let signal = ema_from(data, start, 9);
    proof {
        if data@.len() <= SIGNAL_SKIP {
            assert(data@.subrange(start as int, data@.len() as int) =~= signal_window(data@));
        }
    }
    MACD { value, signal, histogram: value - signal as i64 }
}

/// The 20-, 50- and 200-point simple moving averages.
pub fn calculate_moving_averages(data: &[PricePoint]) -> (r: MovingAverages)
    requires
        within_limits(data@),
    ensures
        r.ma_20 == sma_of(data@, 20),
        r.ma_50 == sma_of(data@, 50),
        r.ma_200 == sma_of(data@, 200),
{
    MovingAverages {
        ma_20: calculate_sma(data, 20),
        ma_50: calculate_sma(data, 50),
        ma_200: calculate_sma(data, 200),
    }
}

/// RSI, MACD and moving averages of one series.
pub fn calculate_technical_indicators(data: &[PricePoint]) -> (r: TechnicalIndicators)
    requires
        within_limits(data@),
    ensures
        r.rsi == rsi_of(data@),
        r.macd.value == ema_of(data@, 12) - ema_of(data@, 26),
        r.macd.signal == ema_of(signal_window(data@), 9),
        r.macd.histogram == r.macd.value - r.macd.signal,
        r.moving_averages.ma_20 == sma_of(data@, 20),
        r.moving_averages.ma_50 == sma_of(data@, 50),
        r.moving_averages.ma_200 == sma_of(data@, 200),
{
    TechnicalIndicators {
        rsi: calculate_rsi(data),
        macd: calculate_macd(data),
        moving_averages: calculate_moving_averages(data),
    }
}


/// Prices that rise strictly from each point to the next.
pub open spec fn strictly_rising(s: Seq<PricePoint>) -> bool {
    forall|i: int| 0 < i < s.len() ==> #[trigger] s[i].price > s[i - 1].price
}

proof fn lemma_rising_no_loss(s: Seq<PricePoint>)
    requires
        strictly_rising(s),
    ensures
        loss_sum(s) == 0,
    decreases s.len(),
{
    if s.len() > 1 {
        let t = s.drop_last();
        assert forall|i: int| 0 < i < t.len() implies #[trigger] t[i].price > t[i - 1].price by {
            assert(s[i].price > s[i - 1].price);
        }
        lemma_rising_no_loss(t);
        assert(s[s.len() - 1].price > s[s.len() - 2].price);
    }
}

/// A series whose prices rise strictly at every step loses nothing, so once
/// it is long enough for RSI to be computed its RSI is exactly 100.
pub proof fn lemma_rising_series_rsi(s: Seq<PricePoint>)
    requires
        strictly_rising(s),
        s.len() >= RSI_PERIOD + 1,
    ensures
        loss_sum(s) == 0,
        rsi_of(s) == 100 * SCALE,
{
    lemma_rising_no_loss(s);
}

} // verus!
