use vstd::prelude::*;
use vstd::string::StringExecFns;
use crate::advice::{analyze_wallet, analyzable, is_wallet_analysis, Wallet, WalletAnalysis};
use crate::error::AppError;
use crate::cache::{after_get, decide, find, is_fresh, CacheDecision, HistoricalSeriesCache};
use crate::market::{analyze_token, is_token_analysis, signals_of, token_signals, TokenAnalysis};
use crate::model::{valid_series, PricePoint, MAX_AMOUNT, MAX_POINTS};
use crate::portfolio::{calculate_risk_score, risk_score_of, total_portfolio_value, total_value, TokenSignals};

verus! {

/// A token's listing data. Prices and values are in fixed-point dollars;
/// the 24-hour change is a signed fixed-point percentage.
pub struct Token {
    pub address: String,
    pub symbol: String,
    pub name: String,
    pub decimals: u8,
    pub total_supply: u64,
    pub price_usd: u64,
    pub market_cap_usd: u64,
    pub volume_24h: u64,
    pub price_change_24h: i64,
}

/// A transfer recorded on chain. Times are seconds since the epoch; the
/// amount is in the token's base units.
pub struct Transaction {
    pub signature: String,
    pub block_time: i64,
    pub success: bool,
    pub from_address: String,
    pub to_address: String,
    pub amount: u64,
    pub token_address: Option<String>,
    pub fee: u64,
}

/// A request to analyse the wallet at `address`.
pub struct WalletAnalysisRequest {
    pub address: String,
}

/// A request to analyse the token at `address`.
pub struct TokenAnalysisRequest {
    pub address: String,
}

/// Risk figures of one holding, in fixed point.
pub struct RiskMetrics {
    pub volatility: u64,
    pub concentration: u64,
    pub liquidity: u64,
}

/// Whether `data` is a well-formed series: strictly increasing times, and
/// prices, volumes and length within the engine's limits.
pub fn check_series(data: &[PricePoint]) -> (r: bool)
    ensures
        r == valid_series(data@),
{
    let n = data.len();
    if n > MAX_POINTS {
        return false;
    }
    let mut i: usize = 0;
    while i < n
        invariant
            i <= n == data@.len(),
            n <= MAX_POINTS,
            forall|j: int| 0 <= j < i ==> #[trigger] data@[j].price <= MAX_AMOUNT && data@[j].volume <= MAX_AMOUNT,
            forall|j: int| 0 < j < i ==> #[trigger] data@[j].timestamp > data@[j - 1].timestamp,
        decreases n - i,
    {
        let p = data[i];
        if p.price > MAX_AMOUNT || p.volume > MAX_AMOUNT {
            return false;
        }
        if i > 0 && p.timestamp <= data[i - 1].timestamp {
            return false;
        }
        i = i + 1;
    }
    true
}

/// The analysis engine: wallet scoring, and token analysis over the series
/// held by its cache.
pub struct AIService {
    pub cache: HistoricalSeriesCache,
}

impl AIService {
    /// A service with an empty cache.
    pub fn new() -> (r: AIService)
        ensures
            r.cache.wf(),
            r.cache.entries@.len() == 0,
    {
        AIService { cache: HistoricalSeriesCache::new() }
    }

    /// Scores a wallet; see `analyze_wallet`.
    pub fn analyze_wallet(&self, wallet: &Wallet, signals: &Vec<TokenSignals>) -> (r: Result<
        WalletAnalysis,
        AppError,
    >)
        ensures
            r is Ok <==> analyzable(wallet.tokens@, signals@),
            r is Err ==> r->Err_0 is InvalidInput,
            r is Ok ==> is_wallet_analysis(wallet.tokens@, signals@, r->Ok_0),
    {
        analyze_wallet(wallet, signals)
    }

    /// Asks the cache for a token's series at `now` before analysing it:
    /// serve the held series, wait for the fetch under way, or make the one
    /// fetch for this address and report it with `complete_fetch`. Repeated
    /// requests for an address never seen start exactly one fetch
    /// (`lemma_single_flight`).
    pub fn request_series(&mut self, token: &Token, now: i64) -> (r: CacheDecision)
        requires
            old(self).cache.wf(),
        ensures
            final(self).cache.wf(),
            r == decide(old(self).cache.entries@, token.address@, now, old(self).cache.ttl),
            final(self).cache.entries@ == after_get(
                old(self).cache.entries@,
                token.address,
                now,
                old(self).cache.ttl,
            ),
            final(self).cache.ttl == old(self).cache.ttl,
    {
        self.cache.get(&token.address, now)
    }

    /// Analyses a token from the series that the cache holds for it and from
    /// its providers' scores (`None` where a provider failed). Fails with
    /// `DataUnavailable` when no series is held, and with `InvalidInput`
    /// when the held series is not well formed. A series that is no longer
    /// fresh at `now` is still used, and the result is marked stale.
    pub fn analyze_token(&self, token: &Token, social: Option<u64>, news: Option<u64>, now: i64) -> (r:
        Result<TokenAnalysis, AppError>)
        requires
            self.cache.wf(),
        ensures
            ({
                let es = self.cache.entries@;
                let k = find(es, token.address@);
                &&& (k < 0 || !es[k].has_series) ==> (r is Err && r->Err_0 is DataUnavailable)
                &&& (k >= 0 && es[k].has_series && !valid_series(self.cache.series@[k]@)) ==> (r is Err
                    && r->Err_0 is InvalidInput)
                &&& (k >= 0 && es[k].has_series && valid_series(self.cache.series@[k]@)) ==> (r is Ok
                    && is_token_analysis(self.cache.series@[k]@, social, news, r->Ok_0) && r->Ok_0.stale
                    == !is_fresh(es[k], now, self.cache.ttl))
            }),
    {
        match self.cache.lookup(&token.address) {
            None => Err(AppError::DataUnavailable(String::from_str("no series for this token"))),
            Some(k) => {
                if !self.cache.entries[k].has_series {
                    return Err(AppError::DataUnavailable(String::from_str("no series for this token")));
                }
                let series = self.cache.series_at(k);
                if !check_series(series.as_slice()) {
                    return Err(AppError::InvalidInput(String::from_str("malformed series")));
                }
                let entry = &self.cache.entries[k];
                let fresh = (now as i128) - (entry.fetched_at as i128) < self.cache.ttl as i128;
                Ok(analyze_token(series.as_slice(), social, news, !fresh))
            },
        }
    }

    /// The signals of every holding of a wallet, computed from the series
    /// that the cache holds for its token. Fails with `DataUnavailable` when a
    /// token has no series, and with `InvalidInput` when one is malformed.
    pub fn wallet_signals(&self, wallet: &Wallet) -> (r: Result<Vec<TokenSignals>, AppError>)
        requires
            self.cache.wf(),
        ensures
            r is Ok <==> forall|i: int|
                0 <= i < wallet.tokens@.len() ==> #[trigger] has_valid_series(
                    &self.cache,
                    wallet.tokens@[i].token_address@,
                ),
            r is Ok ==> r->Ok_0@.len() == wallet.tokens@.len() && forall|i: int|
                0 <= i < wallet.tokens@.len() ==> #[trigger] r->Ok_0@[i] == signals_of(
                    self.cache.series@[find(self.cache.entries@, wallet.tokens@[i].token_address@)]@,
                ),
            r is Err ==> (r->Err_0 is DataUnavailable || r->Err_0 is InvalidInput),
    {
        let mut out: Vec<TokenSignals> = Vec::new();
        let mut i: usize = 0;
        while i < wallet.tokens.len()
            invariant
                self.cache.wf(),
                i <= wallet.tokens@.len(),
                out@.len() == i,
                forall|j: int| 0 <= j < i ==> #[trigger] has_valid_series(&self.cache, wallet.tokens@[j].token_address@),
                forall|j: int|
                    0 <= j < i ==> #[trigger] out@[j] == signals_of(
                        self.cache.series@[find(self.cache.entries@, wallet.tokens@[j].token_address@)]@,
                    ),
            decreases wallet.tokens@.len() - i,
        {
            let key = &wallet.tokens[i].token_address;
            match self.cache.lookup(key) {
                None => {
                    assert(!has_valid_series(&self.cache, wallet.tokens@[i as int].token_address@));
                    return Err(AppError::DataUnavailable(String::from_str("no series for a held token")));
                },
                Some(k) => {
                    if !self.cache.entries[k].has_series {
                        assert(!has_valid_series(&self.cache, wallet.tokens@[i as int].token_address@));
                        return Err(AppError::DataUnavailable(String::from_str("no series for a held token")));
                    }
                    let series = self.cache.series_at(k);
                    if !check_series(series.as_slice()) {
                        assert(!has_valid_series(&self.cache, wallet.tokens@[i as int].token_address@));
                        return Err(AppError::InvalidInput(String::from_str("malformed series")));
                    }
                    out.push(token_signals(series.as_slice()));
                },
            }
            i = i + 1;
        }
        Ok(out)
    }
}

/// The cache holds a well-formed series for `key`.
pub open spec fn has_valid_series(c: &HistoricalSeriesCache, key: Seq<char>) -> bool {
    let k = find(c.entries@, key);
    k >= 0 && c.entries@[k].has_series && valid_series(c.series@[k]@)
}

/// Portfolio-level figures of a wallet, in fixed point.
pub struct PortfolioMetrics {
    pub total_value: u64,
    pub risk_level: u64,
}

/// Portfolio figures over wallets.
pub struct PortfolioService {}

impl PortfolioService {
    pub fn new() -> (r: PortfolioService) {
        PortfolioService {  }
    }

    /// Total value and risk score of a wallet, or `InvalidInput` when the
    /// signals do not match the holdings or the total is too large.
    pub fn calculate_metrics(&self, wallet: &Wallet, signals: &Vec<TokenSignals>) -> (r: Result<
        PortfolioMetrics,
        AppError,
    >)
        ensures
            r is Ok <==> (signals@.len() == wallet.tokens@.len() && total_value(wallet.tokens@)
                <= MAX_AMOUNT),
            r is Ok ==> r->Ok_0.total_value == total_value(wallet.tokens@) && r->Ok_0.risk_level
                == risk_score_of(wallet.tokens@, signals@),
    {
        if signals.len() != wallet.tokens.len() {
            return Err(AppError::InvalidInput(String::from_str("one signal per holding is needed")));
        }
        match total_portfolio_value(&wallet.tokens) {
            None => Err(AppError::InvalidInput(String::from_str("wallet value is too large"))),
            Some(total) => Ok(
                PortfolioMetrics {
                    total_value: total,
                    risk_level: calculate_risk_score(&wallet.tokens, signals),
                },
            ),
        }
    }
}

/// Change from `old_value` to `new_value` in percent, in fixed point,
/// rounded toward zero; 0 when `old_value` is 0.
pub open spec fn percentage_change_of(old_value: int, new_value: int) -> int {
    if old_value == 0 {
        0
    } else if new_value >= old_value {
        (new_value - old_value) * 100 * crate::model::SCALE / old_value
    } else {
        -((old_value - new_value) * 100 * crate::model::SCALE / old_value)
    }
}

/// Percentage change between two fixed-point values.
pub fn calculate_percentage_change(old_value: u64, new_value: u64) -> (r: i128)
    ensures
        r == percentage_change_of(old_value as int, new_value as int),
{
    if old_value == 0 {
        return 0;
    }
    if new_value >= old_value {
        let d = (new_value - old_value) as u128;
        assert(d * 100 * crate::model::SCALE <= 0xFFFF_FFFF_FFFF_FFFFu128 * 100 * crate::model::SCALE) by (nonlinear_arith)
            requires d <= 0xFFFF_FFFF_FFFF_FFFFu128;
        ((d * 100 * crate::model::SCALE as u128) / old_value as u128) as i128
    } else {
        let d = (old_value - new_value) as u128;
        assert(d * 100 * crate::model::SCALE <= 0xFFFF_FFFF_FFFF_FFFFu128 * 100 * crate::model::SCALE) by (nonlinear_arith)
            requires d <= 0xFFFF_FFFF_FFFF_FFFFu128;
        assert(d * 100 * crate::model::SCALE / (old_value as int) <= d * 100 * crate::model::SCALE) by (nonlinear_arith)
            requires old_value >= 1, d >= 0;
        -(((d * 100 * crate::model::SCALE as u128) / old_value as u128) as i128)
    }
}

} // verus!
