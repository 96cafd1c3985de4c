use vstd::prelude::*;
use crate::model::{MAX_AMOUNT, SCALE};
use vstd::arithmetic::div_mod::lemma_fundamental_div_mod;

verus! {

/// A holding of one token: its amount and its value, in fixed-point units.
pub struct TokenBalance {
    pub token_address: String,
    pub amount: u64,
    pub value_usd: u64,
}

/// Market signals for one held token: its volatility (fixed point, 1.0 is
/// `SCALE`) and its recent price trend (a signed relative change in
/// fixed point).
#[derive(Clone, Copy, Debug, PartialEq, Eq, Structural)]
pub struct TokenSignals {
    pub volatility: u64,
    pub price_trend: i64,
}

#[derive(Clone, Copy, Debug, PartialEq, Eq, Structural)]
pub enum RiskLevel {
    Low,
    Medium,
    High,
    VeryHigh,
}

#[derive(Clone, Copy, Debug, PartialEq, Eq, Structural)]
pub enum Action {
    Hold,
    Buy,
    Sell,
    ReduceExposure,
    IncreasePosition,
}

/// What the engine concludes about one holding.
#[derive(Clone, Copy, Debug, PartialEq, Eq, Structural)]
pub struct TokenInsight {
    pub risk_level: RiskLevel,
    pub concentration: u64,
    pub suggested_action: Action,
}

/// A price trend at least this large, either way, counts as strong (5%).
pub const STRONG_TREND: i64 = 50_000;

/// Sum of the values of the first `n` holdings.
pub open spec fn value_sum(s: Seq<TokenBalance>, n: nat) -> int
    decreases n,
{
    if n == 0 {
        0
    } else {
        value_sum(s, (n - 1) as nat) + s[n - 1].value_usd
    }
}

/// Total value of a list of holdings.
pub open spec fn total_value(s: Seq<TokenBalance>) -> int {
    value_sum(s, s.len())
}

/// Sum of the squared values of the first `n` holdings.
pub open spec fn square_sum(s: Seq<TokenBalance>, n: nat) -> int
    decreases n,
{
    if n == 0 {
        0
    } else {
        square_sum(s, (n - 1) as nat) + s[n - 1].value_usd * s[n - 1].value_usd
    }
}

/// Sum of value times volatility over the first `n` holdings.
pub open spec fn weighted_sum(s: Seq<TokenBalance>, g: Seq<TokenSignals>, n: nat) -> int
    decreases n,
{
    if n == 0 {
        0
    } else {
        weighted_sum(s, g, (n - 1) as nat) + s[n - 1].value_usd * g[n - 1].volatility
    }
}

/// Share of `total` that `value` makes up, in fixed point, rounded down; 0
/// when the total is 0.
pub open spec fn concentration_of(value: int, total: int) -> int {
    if total == 0 {
        0
    } else {
        value * SCALE / total
    }
}

/// Sum of the rounded-down shares, in fixed point, of the first `n`
/// holdings of a portfolio worth `t > 0`.
pub open spec fn floor_sum(s: Seq<TokenBalance>, t: int, n: nat) -> int
    decreases n,
{
    if n == 0 {
        0
    } else {
        floor_sum(s, t, (n - 1) as nat) + s[n - 1].value_usd * SCALE / t
    }
}

/// Sum of what rounding down left over, over the first `n` holdings.
pub open spec fn remainder_sum(s: Seq<TokenBalance>, t: int, n: nat) -> int
    decreases n,
{
    if n == 0 {
        0
    } else {
        remainder_sum(s, t, (n - 1) as nat) + s[n - 1].value_usd * SCALE % t
    }
}

/// Number of holdings among the first `n` whose share is not a whole
/// number of fixed-point units.
pub open spec fn inexact_count(s: Seq<TokenBalance>, t: int, n: nat) -> int
    decreases n,
{
    if n == 0 {
        0
    } else {
        inexact_count(s, t, (n - 1) as nat) + if s[n - 1].value_usd * SCALE % t > 0 {
            1int
        } else {
            0
        }
    }
}

/// Units missing when every share is rounded down: `SCALE` less the sum of
/// the rounded-down shares.
pub open spec fn shortfall(s: Seq<TokenBalance>) -> int {
    SCALE - floor_sum(s, total_value(s), s.len())
}

/// Concentration of holding `i`: its share rounded down, plus one unit for
/// the first `shortfall` holdings (in holding order) whose share was not
/// exact, so that the concentrations add up to exactly 1.0. Every holding
/// is 0 in a portfolio worth nothing.
pub open spec fn apportioned(s: Seq<TokenBalance>, i: int) -> int {
    let t = total_value(s);
    if t == 0 {
        0
    } else {
        s[i].value_usd * SCALE / t + if s[i].value_usd * SCALE % t > 0 && inexact_count(
            s,
            t,
            i as nat,
        ) < shortfall(s) {
            1int
        } else {
            0
        }
    }
}

/// Sum of the concentrations of the first `n` holdings.
pub open spec fn apportioned_sum(s: Seq<TokenBalance>, n: nat) -> int
    decreases n,
{
    if n == 0 {
        0
    } else {
        apportioned_sum(s, (n - 1) as nat) + apportioned(s, n - 1)
    }
}

proof fn lemma_shares_split(s: Seq<TokenBalance>, t: int, n: nat)
    requires
        t > 0,
        n <= s.len(),
    ensures
        t * floor_sum(s, t, n) + remainder_sum(s, t, n) == SCALE * value_sum(s, n),
        0 <= remainder_sum(s, t, n) <= (t - 1) * inexact_count(s, t, n),
        0 <= inexact_count(s, t, n) <= n,
        0 <= floor_sum(s, t, n),
    decreases n,
{
    if n > 0 {
        let m = (n - 1) as nat;
        lemma_shares_split(s, t, m);
        let x = s[m as int].value_usd * SCALE;
        lemma_fundamental_div_mod(x, t);
        assert(0 <= x % t < t);
        assert(0 <= x / t) by (nonlinear_arith)
            requires x >= 0, t > 0;
        assert(t * floor_sum(s, t, n) == t * floor_sum(s, t, m) + t * (x / t)) by (nonlinear_arith)
            requires floor_sum(s, t, n) == floor_sum(s, t, m) + x / t;
        assert(SCALE * value_sum(s, n) == SCALE * value_sum(s, m) + x) by (nonlinear_arith)
            requires value_sum(s, n) == value_sum(s, m) + s[m as int].value_usd, x == s[m as int].value_usd * SCALE;
        if x % t > 0 {
            assert((t - 1) * inexact_count(s, t, n) == (t - 1) * inexact_count(s, t, m) + (t - 1)) by (nonlinear_arith)
                requires inexact_count(s, t, n) == inexact_count(s, t, m) + 1;
        }
    }
}

proof fn lemma_apportioned_sum(s: Seq<TokenBalance>, n: nat)
    requires
        total_value(s) > 0,
        n <= s.len(),
        shortfall(s) >= 0,
    ensures
        apportioned_sum(s, n) == floor_sum(s, total_value(s), n) + if inexact_count(s, total_value(s), n) < shortfall(s) {
            inexact_count(s, total_value(s), n)
        } else {
            shortfall(s)
        },
    decreases n,
{
    if n > 0 {
        lemma_apportioned_sum(s, (n - 1) as nat);
    }
}

/// In a portfolio worth more than nothing, the concentrations add up to
/// exactly 1.0, and each is within one unit of the holding's exact share.
pub proof fn lemma_concentrations_sum_to_one(s: Seq<TokenBalance>)
    requires
        total_value(s) > 0,
    ensures
        apportioned_sum(s, s.len()) == SCALE,
        forall|i: int|
            0 <= i < s.len() ==> {
                let t = total_value(s);
                let c = #[trigger] apportioned(s, i);
                c * t <= s[i].value_usd * SCALE + t && s[i].value_usd * SCALE < (c + 1) * t
            },
{
    let t = total_value(s);
    let n = s.len();
    lemma_shares_split(s, t, n);
    let d = shortfall(s);
    let nz = inexact_count(s, t, n);
    let rs = remainder_sum(s, t, n);
    // t * floor_sum + rs == SCALE * t, so rs == t * d
    assert(rs == t * d) by (nonlinear_arith)
        requires t * floor_sum(s, t, n) + rs == SCALE * t, d == SCALE - floor_sum(s, t, n);
    assert(d >= 0) by (nonlinear_arith)
        requires rs == t * d, rs >= 0, t > 0;
    assert(d <= nz) by (nonlinear_arith)
        requires rs == t * d, rs <= (t - 1) * nz, t > 0, nz >= 0;
    lemma_apportioned_sum(s, n);
    assert forall|i: int| 0 <= i < s.len() implies {
        let c = #[trigger] apportioned(s, i);
        c * t <= s[i].value_usd * SCALE + t && s[i].value_usd * SCALE < (c + 1) * t
    } by {
        let x = s[i].value_usd * SCALE;
        lemma_fundamental_div_mod(x, t);
        assert(0 <= x % t < t);
        let f = x / t;
        let c = apportioned(s, i);
        assert(c == f || (c == f + 1 && x % t > 0));
        assert(c * t <= x + t && x < (c + 1) * t) by (nonlinear_arith)
            requires x == t * f + x % t, 0 <= x % t < t, c == f || (c == f + 1 && x % t > 0), t > 0;
    }
}

/// Risk level of a holding from its concentration and its volatility: Low
/// under 10%; Medium or High from 10% to 20%; High or VeryHigh above 20%,
/// the higher one when the volatility is at least 0.5.
pub open spec fn risk_level_of(concentration: int, volatility: int) -> RiskLevel {
    if concentration < SCALE / 10 {
        RiskLevel::Low
    } else if concentration <= SCALE / 5 {
        if 2 * volatility < SCALE {
            RiskLevel::Medium
        } else {
            RiskLevel::High
        }
    } else if 2 * volatility < SCALE {
        RiskLevel::High
    } else {
        RiskLevel::VeryHigh
    }
}

/// Suggested action for a holding, by the first rule that applies.
pub open spec fn action_of(level: RiskLevel, concentration: int, trend: int) -> Action {
    if (level == RiskLevel::High || level == RiskLevel::VeryHigh) && concentration > SCALE / 5 {
        Action::ReduceExposure
    } else if level == RiskLevel::Low && concentration < SCALE / 20 && trend > 0 {
        Action::IncreasePosition
    } else if level == RiskLevel::VeryHigh && trend < -STRONG_TREND {
        Action::Sell
    } else if level == RiskLevel::Low && trend > STRONG_TREND {
        Action::Buy
    } else {
        Action::Hold
    }
}

/// Portfolio risk: the concentration-weighted volatility, at most 1.0; 0
/// for a portfolio worth nothing.
pub open spec fn risk_score_of(s: Seq<TokenBalance>, g: Seq<TokenSignals>) -> int {
    let t = total_value(s);
    if t == 0 {
        0
    } else {
        let w = weighted_sum(s, g, s.len()) / t;
        if w > SCALE {
            SCALE as int
        } else {
            w
        }
    }
}

/// Portfolio diversity: one minus the sum of squared concentrations
/// (Herfindahl index), rounded down; 1.0 for a portfolio worth nothing.
pub open spec fn diversity_of(s: Seq<TokenBalance>) -> int {
    let t = total_value(s);
    if t == 0 {
        SCALE as int
    } else {
        SCALE * (t * t - square_sum(s, s.len())) / (t * t)
    }
}

pub proof fn lemma_value_sum_grows(s: Seq<TokenBalance>, i: nat, n: nat)
    requires
        i <= n <= s.len(),
    ensures
        0 <= value_sum(s, i) <= value_sum(s, n),
    decreases n,
{
    if i < n {
        lemma_value_sum_grows(s, i, (n - 1) as nat);
    } else if n > 0 {
        lemma_value_sum_grows(s, (n - 1) as nat, (n - 1) as nat);
    }
}

proof fn lemma_square_sum_bound(s: Seq<TokenBalance>, n: nat)
    requires
        n <= s.len(),
    ensures
        0 <= square_sum(s, n) <= value_sum(s, n) * value_sum(s, n),
    decreases n,
{
    if n > 0 {
        let m = (n - 1) as nat;
        lemma_square_sum_bound(s, m);
        lemma_value_sum_grows(s, m, m);
        let a = value_sum(s, m);
        let v = s[n - 1].value_usd as int;
        let q = square_sum(s, m);
        assert(0 <= q + v * v <= (a + v) * (a + v)) by (nonlinear_arith)
            requires 0 <= q <= a * a, a >= 0, v >= 0;
    }
}

/// Whatever the holdings and the volatilities, the portfolio risk and the
/// diversity score both lie between 0 and 1.0.
pub proof fn lemma_scores_bounded(s: Seq<TokenBalance>, g: Seq<TokenSignals>)
    ensures
        0 <= risk_score_of(s, g) <= SCALE,
        0 <= diversity_of(s) <= SCALE,
{
    let t = total_value(s);
    lemma_square_sum_bound(s, s.len());
    lemma_weighted_sum_nonneg(s, g, s.len());
    lemma_value_sum_grows(s, s.len(), s.len());
    if t != 0 {
        let sq = square_sum(s, s.len());
        assert(t * t > 0) by (nonlinear_arith)
            requires t > 0;
        assert(0 <= SCALE * (t * t - sq) <= SCALE * (t * t)) by (nonlinear_arith)
            requires 0 <= sq <= t * t;
        assert(SCALE * (t * t - sq) / (t * t) <= SCALE) by (nonlinear_arith)
            requires 0 <= SCALE * (t * t - sq) <= SCALE * (t * t), t * t > 0;
        assert(0 <= SCALE * (t * t - sq) / (t * t)) by (nonlinear_arith)
            requires 0 <= SCALE * (t * t - sq), t * t > 0;
        assert(0 <= weighted_sum(s, g, s.len()) / t) by (nonlinear_arith)
            requires 0 <= weighted_sum(s, g, s.len()), t > 0;
    }
}

proof fn lemma_weighted_sum_nonneg(s: Seq<TokenBalance>, g: Seq<TokenSignals>, n: nat)
    ensures
        0 <= weighted_sum(s, g, n),
    decreases n,
{
    if n > 0 {
        lemma_weighted_sum_nonneg(s, g, (n - 1) as nat);
        let v = s[n - 1].value_usd as int;
        let w = g[n - 1].volatility as int;
        assert(0 <= v * w) by (nonlinear_arith)
            requires v >= 0, w >= 0;
    }
}

/// The value of each holding is at most the total.
pub proof fn lemma_value_at_most_total(s: Seq<TokenBalance>, i: int)
    requires
        0 <= i < s.len(),
    ensures
        s[i].value_usd <= total_value(s),
{
    lemma_value_sum_grows(s, (i + 1) as nat, s.len());
    lemma_value_sum_grows(s, i as nat, i as nat);
}

/// Total value of the holdings, when it is within `MAX_AMOUNT`.
pub fn total_portfolio_value(tokens: &Vec<TokenBalance>) -> (r: Option<u64>)
    ensures
        r is Some <==> total_value(tokens@) <= MAX_AMOUNT,
        r is Some ==> r->Some_0 == total_value(tokens@),
{
    let mut total: u64 = 0;
    let mut i: usize = 0;
    while i < tokens.len()
        invariant
            i <= tokens@.len(),
            total == value_sum(tokens@, i as nat),
            total <= MAX_AMOUNT,
        decreases tokens@.len() - i,
    {
        let v = tokens[i].value_usd;
        if v > MAX_AMOUNT - total {
            proof {
                lemma_value_sum_grows(tokens@, (i + 1) as nat, tokens@.len());
            }
            return None;
        }
        total = total + v;
        i = i + 1;
    }
    Some(total)
}

/// Share of the portfolio that a holding of `value` makes up.
pub fn calculate_concentration(value: u64, total: u64) -> (r: u64)
    requires
        value <= total <= MAX_AMOUNT,
    ensures
        r == concentration_of(value as int, total as int),
        r <= SCALE,
{
    if total == 0 {
        return 0;
    }
    assert(value * SCALE <= total * SCALE) by (nonlinear_arith)
        requires value <= total;
    assert(value * SCALE / (total as int) <= SCALE) by (nonlinear_arith)
        requires value * SCALE <= total * SCALE, total > 0;
    assert(value * SCALE <= MAX_AMOUNT * SCALE) by (nonlinear_arith)
        requires value <= MAX_AMOUNT;
    ((value as u128 * SCALE as u128) / total as u128) as u64
}

/// Risk level of a holding.
pub fn determine_risk_level(concentration: u64, volatility: u64) -> (r: RiskLevel)
    ensures
        r == risk_level_of(concentration as int, volatility as int),
{
    if concentration < SCALE / 10 {
        RiskLevel::Low
    } else if concentration <= SCALE / 5 {
        if (volatility as u128) * 2 < SCALE as u128 {
            RiskLevel::Medium
        } else {
            RiskLevel::High
        }
    } else if (volatility as u128) * 2 < SCALE as u128 {
        RiskLevel::High
    } else {
        RiskLevel::VeryHigh
    }
}

/// Suggested action for a holding.
pub fn suggest_action(level: RiskLevel, concentration: u64, price_trend: i64) -> (r: Action)
    ensures
        r == action_of(level, concentration as int, price_trend as int),
{
    let high = match level {
        RiskLevel::High | RiskLevel::VeryHigh => true,
        _ => false,
    };
    let low = match level {
        RiskLevel::Low => true,
        _ => false,
    };
    let very_high = match level {
        RiskLevel::VeryHigh => true,
        _ => false,
    };
    if high && concentration > SCALE / 5 {
        Action::ReduceExposure
    } else if low && concentration < SCALE / 20 && price_trend > 0 {
        Action::IncreasePosition
    } else if very_high && price_trend < -STRONG_TREND {
        Action::Sell
    } else if low && price_trend > STRONG_TREND {
        Action::Buy
    } else {
        Action::Hold
    }
}

/// The insight on a holding with concentration `c` and signals `g`.
pub open spec fn insight_of(c: int, g: TokenSignals) -> TokenInsight {
    let level = risk_level_of(c, g.volatility as int);
    TokenInsight {
        risk_level: level,
        concentration: c as u64,
        suggested_action: action_of(level, c, g.price_trend as int),
    }
}

/// Risk level and suggested action of a holding with the given concentration.
pub fn analyze_token_position(concentration: u64, signals: &TokenSignals) -> (r: TokenInsight)
    ensures
        r == insight_of(concentration as int, *signals),
{
    let risk_level = determine_risk_level(concentration, signals.volatility);
    let suggested_action = suggest_action(risk_level, concentration, signals.price_trend);
    TokenInsight { risk_level, concentration, suggested_action }
}

/// The concentration of every holding, apportioned so that they add up to
/// exactly 1.0 (all 0 for a portfolio worth nothing).
pub fn apportion_concentrations(tokens: &Vec<TokenBalance>) -> (r: Vec<u64>)
    requires
        total_value(tokens@) <= MAX_AMOUNT,
    ensures
        r@.len() == tokens@.len(),
        forall|i: int| 0 <= i < r@.len() ==> #[trigger] r@[i] == apportioned(tokens@, i),
{
    let ghost s = tokens@;
    let n = tokens.len();
    let total = match total_portfolio_value(tokens) {
        Some(t) => t,
        None => 0,
    };
    let mut out: Vec<u64> = Vec::new();
    if total == 0 {
        let mut i: usize = 0;
        while i < n
            invariant
                i <= n == s.len(),
                total_value(s) == 0,
                out@.len() == i,
                forall|j: int| 0 <= j < i ==> #[trigger] out@[j] == apportioned(s, j),
            decreases n - i,
        {
            out.push(0);
            i = i + 1;
        }
        return out;
    }
    let ghost t = total as int;
    let mut floors: u64 = 0;
    let mut i: usize = 0;
    while i < n
        invariant
            i <= n == s.len(),
            s == tokens@,
            t == total_value(s) == total,
            0 < total <= MAX_AMOUNT,
            floors == floor_sum(s, t, i as nat),
            floors <= SCALE,
        decreases n - i,
    {
        proof {
            lemma_shares_split(s, t, (i + 1) as nat);
            lemma_value_sum_grows(s, (i + 1) as nat, n as nat);
            lemma_value_at_most_total(s, i as int);
            assert(floor_sum(s, t, (i + 1) as nat) <= SCALE) by (nonlinear_arith)
                requires t * floor_sum(s, t, (i + 1) as nat) + remainder_sum(s, t, (i + 1) as nat)
                    == SCALE * value_sum(s, (i + 1) as nat), remainder_sum(s, t, (i + 1) as nat) >= 0,
                    value_sum(s, (i + 1) as nat) <= t, t > 0;
        }
        let v = tokens[i].value_usd;
        assert(v * SCALE <= MAX_AMOUNT * SCALE) by (nonlinear_arith)
            requires v <= MAX_AMOUNT;
        floors = floors + ((v as u128 * SCALE as u128) / total as u128) as u64;
        i = i + 1;
    }
    let missing = SCALE - floors;
    assert(missing == shortfall(s));
    let mut inexact: u64 = 0;
    let mut i: usize = 0;
    while i < n
        invariant
            i <= n == s.len(),
            s == tokens@,
            t == total_value(s) == total,
            0 < total <= MAX_AMOUNT,
            missing == shortfall(s),
            inexact == inexact_count(s, t, i as nat),
            inexact <= i,
            out@.len() == i,
            forall|j: int| 0 <= j < i ==> #[trigger] out@[j] == apportioned(s, j),
        decreases n - i,
    {
        proof {
            lemma_value_at_most_total(s, i as int);
        }
        let v = tokens[i].value_usd;
        assert(v * SCALE <= MAX_AMOUNT * SCALE) by (nonlinear_arith)
            requires v <= MAX_AMOUNT;
        assert(v * SCALE / t <= SCALE) by (nonlinear_arith)
            requires v <= t, t > 0;
        let x = v as u128 * SCALE as u128;
        let floor = (x / total as u128) as u64;
        let rest = x % total as u128;
        let bump: u64 = if rest > 0 && inexact < missing { 1 } else { 0 };
        out.push(floor + bump);
        if rest > 0 {
            inexact = inexact + 1;
        }
        i = i + 1;
    }
    out
}

/// Concentration-weighted volatility of the portfolio, at most 1.0.
pub fn calculate_risk_score(tokens: &Vec<TokenBalance>, signals: &Vec<TokenSignals>) -> (r: u64)
    requires
        signals@.len() == tokens@.len(),
        total_value(tokens@) <= MAX_AMOUNT,
    ensures
        r == risk_score_of(tokens@, signals@),
        r <= SCALE,
{
    let ghost s = tokens@;
    let mut total: u64 = 0;
    let mut weighted: u128 = 0;
    let mut i: usize = 0;
    while i < tokens.len()
        invariant
            i <= s.len() == signals@.len(),
            s == tokens@,
            total_value(s) <= MAX_AMOUNT,
            total == value_sum(s, i as nat),
            weighted == weighted_sum(s, signals@, i as nat),
            weighted <= total * (u64::MAX as int),
        decreases s.len() - i,
    {
        proof {
            lemma_value_sum_grows(s, (i + 1) as nat, s.len());
        }
        let v = tokens[i].value_usd;
        let vol = signals[i].volatility;
        assert(weighted + v * vol <= (total + v) * (u64::MAX as int)) by (nonlinear_arith)
            requires weighted <= total * (u64::MAX as int), vol <= u64::MAX, v >= 0;
        assert((total + v) * (u64::MAX as int) <= MAX_AMOUNT * (u64::MAX as int)) by (nonlinear_arith)
            requires total + v <= MAX_AMOUNT;
        weighted = weighted + (v as u128) * (vol as u128);
        total = total + v;
        i = i + 1;
    }
    if total == 0 {
        return 0;
    }
    let w = weighted / total as u128;
    if w > SCALE as u128 {
        SCALE
    } else {
        w as u64
    }
}

/// One minus the Herfindahl index of the portfolio, in fixed point.
pub fn calculate_diversity_score(tokens: &Vec<TokenBalance>) -> (r: u64)
    requires
        total_value(tokens@) <= MAX_AMOUNT,
    ensures
        r == diversity_of(tokens@),
        r <= SCALE,
{
    let ghost s = tokens@;
    let mut total: u64 = 0;
    let mut squares: u128 = 0;
    let mut i: usize = 0;
    while i < tokens.len()
        invariant
            i <= s.len(),
            s == tokens@,
            total_value(s) <= MAX_AMOUNT,
            total == value_sum(s, i as nat),
            squares == square_sum(s, i as nat),
        decreases s.len() - i,
    {
        proof {
            lemma_value_sum_grows(s, (i + 1) as nat, s.len());
            lemma_square_sum_bound(s, (i + 1) as nat);
        }
        let v = tokens[i].value_usd;
        assert(square_sum(s, (i + 1) as nat) <= MAX_AMOUNT * MAX_AMOUNT) by (nonlinear_arith)
            requires square_sum(s, (i + 1) as nat) <= value_sum(s, (i + 1) as nat) * value_sum(s, (i + 1) as nat),
                0 <= value_sum(s, (i + 1) as nat) <= MAX_AMOUNT;
        squares = squares + (v as u128) * (v as u128);
        total = total + v;
        i = i + 1;
    }
    if total == 0 {
        return SCALE;
    }
    proof {
        lemma_square_sum_bound(s, s.len());
    }
    assert(total <= MAX_AMOUNT);
    assert(total * total <= MAX_AMOUNT * MAX_AMOUNT) by (nonlinear_arith)
        requires total <= MAX_AMOUNT;
    let tt = (total as u128) * (total as u128);
    assert(tt > 0) by (nonlinear_arith)
        requires tt == total * total, total > 0;
    let spread = tt - squares;
    assert(SCALE * spread <= SCALE * tt) by (nonlinear_arith)
        requires spread <= tt;
    assert(SCALE * spread / (tt as int) <= SCALE) by (nonlinear_arith)
        requires SCALE * spread <= SCALE * tt, tt > 0;
    ((SCALE as u128 * spread) / tt) as u64
}

} // verus!
