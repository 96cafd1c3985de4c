use vstd::prelude::*;
use vstd::string::StringExecFns;
use crate::error::AppError;
use crate::model::{MAX_AMOUNT, SCALE};
use crate::order::{lemma_text_lt_total, lemma_text_lt_transitive, str_lt, strictly_ascending, text_lt};
use crate::holdings::{addresses, lemma_merged, merge_holdings, merged, merged_signals};
use crate::portfolio::{
    analyze_token_position, apportion_concentrations, apportioned, apportioned_sum,
    calculate_diversity_score, calculate_risk_score, diversity_of, insight_of,
    lemma_concentrations_sum_to_one, risk_score_of, total_portfolio_value, total_value, RiskLevel,
    TokenBalance, TokenInsight, TokenSignals,
};

verus! {

/// Does this insight call for reducing the position (high risk, over 20%)?
pub open spec fn needs_reduction(i: TokenInsight) -> bool {
    (i.risk_level == RiskLevel::High || i.risk_level == RiskLevel::VeryHigh) && i.concentration
        > SCALE / 5
}

/// The texts that a list of strings holds.
pub open spec fn texts(v: Seq<String>) -> Seq<Seq<char>> {
    v.map_values(|x: String| x@)
}

/// `a` is the address of a holding whose insight calls for reducing it.
pub open spec fn is_risky_address(a: Seq<char>, s: Seq<TokenBalance>, ins: Seq<TokenInsight>) -> bool {
    exists|j: int| 0 <= j < s.len() && needs_reduction(ins[j]) && #[trigger] s[j].token_address@ == a
}

/// `q` lists, in strictly ascending order, exactly the addresses of the
/// holdings whose insight calls for reducing the position.
pub open spec fn lists_risky(q: Seq<Seq<char>>, s: Seq<TokenBalance>, ins: Seq<TokenInsight>) -> bool {
    &&& strictly_ascending(q)
    &&& forall|k: int| 0 <= k < q.len() ==> is_risky_address(#[trigger] q[k], s, ins)
    &&& forall|j: int|
        0 <= j < s.len() && needs_reduction(#[trigger] ins[j]) ==> q.contains(s[j].token_address@)
}

pub open spec fn diversify_text() -> Seq<char> {
    "Consider diversifying your portfolio across more assets"@
}

pub open spec fn rebalance_text() -> Seq<char> {
    "Portfolio is highly concentrated. Consider rebalancing."@
}

pub open spec fn reduce_text(address: Seq<char>) -> Seq<char> {
    "Consider reducing exposure to token "@ + address
}

/// Number of distinct token addresses among the holdings.
pub open spec fn distinct_count(s: Seq<TokenBalance>) -> nat {
    addresses(s).to_set().len()
}

/// Number of lines before the reduce-exposure lines: 1 when a wallet of `n`
/// distinct tokens is told to diversify, else 0.
pub open spec fn lead(n: nat) -> int {
    if n < 5 {
        1
    } else {
        0
    }
}

/// The recommendations for a wallet of `n` distinct tokens with diversity
/// `div`, whose risky addresses are `q`: a diversification line first when
/// there are fewer than 5 distinct tokens, then one line per risky address
/// in order, then a rebalancing line when the diversity is under 0.5.
pub open spec fn recommendation_layout(r: Seq<Seq<char>>, n: nat, q: Seq<Seq<char>>, div: int) -> bool {
    let tail: int = if div < SCALE / 2 { 1 } else { 0 };
    &&& r.len() == lead(n) + q.len() + tail
    &&& n < 5 ==> r[0] == diversify_text()
    &&& forall|k: int| 0 <= k < q.len() ==> #[trigger] r[lead(n) + k] == reduce_text(q[k])
    &&& div < SCALE / 2 ==> r[r.len() - 1] == rebalance_text()
}

/// Number of distinct token addresses among the holdings.
pub fn count_distinct_addresses(tokens: &Vec<TokenBalance>) -> (r: usize)
    ensures
        r == distinct_count(tokens@),
{
    let ghost s = tokens@;
    let mut seen: Vec<String> = Vec::new();
    let mut i: usize = 0;
    assert(addresses(s.subrange(0, 0)) =~= Seq::<Seq<char>>::empty());
    assert(texts(seen@) =~= Seq::<Seq<char>>::empty());
    while i < tokens.len()
        invariant
            i <= s.len(),
            s == tokens@,
            seen@.len() <= i,
            texts(seen@).no_duplicates(),
            texts(seen@).to_set() == addresses(s.subrange(0, i as int)).to_set(),
        decreases s.len() - i,
    {
        let a = &tokens[i].token_address;
        let ghost before = texts(seen@);
        assert(addresses(s.subrange(0, i + 1)) =~= addresses(s.subrange(0, i as int)).push(a@));
        proof {
            addresses(s.subrange(0, i as int)).lemma_push_to_set_commute(a@);
        }
        let mut k: usize = 0;
        let mut found = false;
        while k < seen.len()
            invariant
                k <= seen@.len(),
                before == texts(seen@),
                found ==> before.contains(a@),
                !found ==> forall|j: int| 0 <= j < k ==> before[j] != a@,
            decreases seen@.len() - k,
        {
            if seen[k] == *a {
                found = true;
                assert(before[k as int] == a@);
            }
            k = k + 1;
        }
        if found {
            assert(before.to_set().insert(a@) =~= before.to_set());
        } else {
            seen.push(a.clone());
            proof {
                assert(texts(seen@) =~= before.push(a@));
                before.lemma_push_to_set_commute(a@);
                assert forall|x: int, y: int| 0 <= x < y < texts(seen@).len() implies texts(seen@)[x]
                    != texts(seen@)[y] by {
                    if y == before.len() {
                        assert(before[x] != a@);
                    } else {
                        assert(before[x] != before[y]);
                    }
                }
            }
        }
        i = i + 1;
    }
    proof {
        assert(s.subrange(0, s.len() as int) =~= s);
        texts(seen@).unique_seq_to_set();
    }
    seen.len()
}

/// The addresses of the holdings whose insight calls for reducing the
/// position, in ascending order, each once.
pub fn risky_addresses(tokens: &Vec<TokenBalance>, insights: &Vec<TokenInsight>) -> (r: Vec<String>)
    requires
        insights@.len() == tokens@.len(),
    ensures
        lists_risky(texts(r@), tokens@, insights@),
{
    let n = tokens.len();
    let ghost s = tokens@;
    let ghost ins = insights@;
    let mut out: Vec<String> = Vec::new();
    let ghost mut src: Seq<int> = Seq::empty();
    let mut i: usize = 0;
    while i < n
        invariant
            i <= n == s.len() == ins.len(),
            s == tokens@,
            ins == insights@,
            src.len() == out@.len(),
            forall|k: int|
                0 <= k < src.len() ==> 0 <= #[trigger] src[k] < i && needs_reduction(ins[src[k]])
                    && out@[k]@ == s[src[k]].token_address@,
            strictly_ascending(texts(out@)),
            forall|j: int|
                0 <= j < i && needs_reduction(#[trigger] ins[j]) ==> texts(out@).contains(
                    s[j].token_address@,
                ),
        decreases n - i,
    {
        let ins_i = insights[i];
        if (match ins_i.risk_level {
            RiskLevel::High | RiskLevel::VeryHigh => true,
            _ => false,
        }) && ins_i.concentration > SCALE / 5 {
            let a = &tokens[i].token_address;
            let mut p: usize = 0;
            while p < out.len() && str_lt(out[p].as_str(), a.as_str())
                invariant
                    p <= out@.len(),
                    forall|k: int| 0 <= k < p ==> text_lt(#[trigger] out@[k]@, a@),
                decreases out@.len() - p,
            {
                p = p + 1;
            }
            let ghost old_q = texts(out@);
            let ghost old_src = src;
            let ghost old_out = out@;
            assert(forall|k: int| 0 <= k < p ==> text_lt(#[trigger] old_q[k], a@));
            let present = p < out.len() && out[p] == *a;
            if present {
                assert(old_q[p as int] == a@);
            } else {
                if p < out.len() {
                    assert(!text_lt(old_q[p as int], a@));
                    assert(old_q[p as int] != a@);
                    proof {
                        lemma_text_lt_total(old_q[p as int], a@);
                    }
                }
                out.insert(p, a.clone());
                proof {
                    src = src.insert(p as int, i as int);
                    let q = texts(out@);
                    assert(q =~= old_q.insert(p as int, a@));
                    assert forall|x: int, y: int| 0 <= x < y < q.len() implies text_lt(
                        #[trigger] q[x],
                        #[trigger] q[y],
                    ) by {
                        if y < p {
                            assert(q[x] == old_q[x] && q[y] == old_q[y]);
                        } else if y == p {
                            assert(q[x] == old_q[x]);
                        } else if x == p {
                            assert(q[y] == old_q[y - 1]);
                            if y - 1 > p {
                                assert(text_lt(old_q[p as int], old_q[y - 1]));
                                lemma_text_lt_transitive(a@, old_q[p as int], old_q[y - 1]);
                            }
                        } else if x < p {
                            assert(q[x] == old_q[x] && q[y] == old_q[y - 1]);
                            if x < y - 1 {
                                assert(text_lt(old_q[x], old_q[y - 1]));
                            }
                        } else {
                            assert(q[x] == old_q[x - 1] && q[y] == old_q[y - 1]);
                        }
                    }
                    assert forall|k: int| 0 <= k < src.len() implies 0 <= #[trigger] src[k] < i + 1
                        && needs_reduction(ins[src[k]]) && out@[k]@ == s[src[k]].token_address@ by {
                        if k < p {
                            assert(src[k] == old_src[k]);
                        } else if k > p {
                            assert(src[k] == old_src[k - 1]);
                        }
                    }
                    assert forall|j: int|
                        0 <= j < i + 1 && needs_reduction(#[trigger] ins[j]) implies q.contains(
                        s[j].token_address@,
                    ) by {
                        if j == i {
                            assert(q[p as int] == s[j].token_address@);
                        } else {
                            assert(old_q.contains(s[j].token_address@));
                            let k = choose|k: int| 0 <= k < old_q.len() && old_q[k] == s[j].token_address@;
                            if k < p {
                                assert(q[k] == old_q[k]);
                            } else {
                                assert(q[k + 1] == old_q[k]);
                            }
                        }
                    }
                }
            }
        }
        i = i + 1;
    }
    proof {
        let q = texts(out@);
        assert forall|k: int| 0 <= k < q.len() implies is_risky_address(#[trigger] q[k], s, ins) by {
            assert(q[k] == out@[k]@);
            assert(s[src[k]].token_address@ == q[k]);
        }
    }
    out
}

/// The recommendations for a wallet: diversify when it holds fewer than 5
/// distinct tokens, reduce each risky position in ascending address order, and
/// rebalance when the diversity score is under 0.5.
pub fn generate_recommendations(
    tokens: &Vec<TokenBalance>,
    token_insights: &Vec<TokenInsight>,
    diversity_score: u64,
) -> (r: Vec<String>)
    requires
        token_insights@.len() == tokens@.len(),
    ensures
        exists|q: Seq<Seq<char>>|
            lists_risky(q, tokens@, token_insights@) && recommendation_layout(
                texts(r@),
                distinct_count(tokens@),
                q,
                diversity_score as int,
            ),
{
    let mut recommendations: Vec<String> = Vec::new();
    let distinct = count_distinct_addresses(tokens);
    let head: usize = if distinct < 5 { 1 } else { 0 };
    if distinct < 5 {
        recommendations.push(
            String::from_str("Consider diversifying your portfolio across more assets"),
        );
    }
    let risky = risky_addresses(tokens, token_insights);
    let ghost q = texts(risky@);
    let mut k: usize = 0;
    while k < risky.len()
        invariant
            k <= risky@.len(),
            q == texts(risky@),
            recommendations@.len() == head + k,
            head == lead(distinct_count(tokens@)),
            distinct == distinct_count(tokens@),
            distinct < 5 ==> recommendations@[0]@ == diversify_text(),
            forall|j: int| 0 <= j < k ==> #[trigger] recommendations@[head + j]@ == reduce_text(q[j]),
        decreases risky@.len() - k,
    {
        let line = String::from_str("Consider reducing exposure to token ").concat(
            risky[k].as_str(),
        );
        recommendations.push(line);
        k = k + 1;
    }
    if diversity_score < SCALE / 2 {
        recommendations.push(
            String::from_str("Portfolio is highly concentrated. Consider rebalancing."),
        );
    }
    assert(recommendation_layout(
        texts(recommendations@),
        distinct_count(tokens@),
        q,
        diversity_score as int,
    ));
    recommendations
}

/// A wallet and its holdings. Values are in fixed-point dollars; the id is
/// the wallet's UUID as a number and times are seconds since the epoch.
pub struct Wallet {
    pub id: u128,
    pub address: String,
    pub total_value_usd: u64,
    pub tokens: Vec<TokenBalance>,
    pub risk_score: u64,
    pub created_at: i64,
    pub updated_at: i64,
}

impl Wallet {
    /// An empty wallet at `address`, created at `now`.
    pub fn new(address: String, id: u128, now: i64) -> (r: Wallet)
        ensures
            r.address == address,
            r.id == id,
            r.total_value_usd == 0,
            r.tokens@.len() == 0,
            r.risk_score == 0,
            r.created_at == now,
            r.updated_at == now,
    {
        Wallet {
            id,
            address,
            total_value_usd: 0,
            tokens: Vec::new(),
            risk_score: 0,
            created_at: now,
            updated_at: now,
        }
    }
}

/// The result of analysing a wallet. `token_insights` holds one entry per
/// holding, in the order of the holdings.
pub struct WalletAnalysis {
    pub risk_score: u64,
    pub diversity_score: u64,
    pub recommendations: Vec<String>,
    pub token_insights: Vec<(String, TokenInsight)>,
}

/// The insights of an analysis, without their addresses.
pub open spec fn insight_values(v: Seq<(String, TokenInsight)>) -> Seq<TokenInsight> {
    v.map_values(|p: (String, TokenInsight)| p.1)
}

/// `a` is the analysis of holdings `s` with signals `g` (one per holding).
/// Holdings of the same token are merged first (`merged`), and the analysis
/// speaks of the merged list `m`: the portfolio risk and diversity (both
/// within 1.0), one insight per token in order of first appearance, whose
/// concentrations add up to exactly 1.0 when the wallet is worth anything,
/// and the recommendations laid out over the distinct tokens and the risky
/// addresses.
pub open spec fn is_wallet_analysis(s: Seq<TokenBalance>, g: Seq<TokenSignals>, a: WalletAnalysis) -> bool {
    let m = merged(s);
    let mg = merged_signals(s, g);
    &&& a.risk_score == risk_score_of(m, mg)
    &&& a.diversity_score == diversity_of(m)
    &&& a.risk_score <= SCALE
    &&& a.diversity_score <= SCALE
    &&& a.token_insights@.len() == m.len()
    &&& forall|i: int|
        0 <= i < m.len() ==> (#[trigger] a.token_insights@[i]).0@ == m[i].token_address@
            && a.token_insights@[i].1 == insight_of(apportioned(m, i), mg[i])
    &&& total_value(s) > 0 ==> apportioned_sum(m, m.len()) == SCALE
    &&& exists|q: Seq<Seq<char>>|
        lists_risky(q, m, insight_values(a.token_insights@)) && recommendation_layout(
            texts(a.recommendations@),
            distinct_count(s),
            q,
            a.diversity_score as int,
        )
}

/// A wallet that the engine accepts with these signals: one signal per
/// holding and a total within `MAX_AMOUNT`.
pub open spec fn analyzable(tokens: Seq<TokenBalance>, signals: Seq<TokenSignals>) -> bool {
    &&& signals.len() == tokens.len()
    &&& total_value(tokens) <= MAX_AMOUNT
}

/// Scores a wallet: an insight for every token, portfolio risk and
/// diversity, and recommendations. `signals[i]` holds the volatility and the
/// price trend of the token of `wallet.tokens[i]`; holdings of one token are
/// merged, keeping the signals of the first. The total is recomputed from
/// the holdings.
pub fn analyze_wallet(wallet: &Wallet, signals: &Vec<TokenSignals>) -> (r: Result<
    WalletAnalysis,
    AppError,
>)
    ensures
        r is Ok <==> analyzable(wallet.tokens@, signals@),
        r is Err ==> r->Err_0 is InvalidInput,
        r is Ok ==> is_wallet_analysis(wallet.tokens@, signals@, r->Ok_0),
{
    let tokens = &wallet.tokens;
    if signals.len() != tokens.len() {
        return Err(AppError::InvalidInput(String::from_str("one signal per holding is needed")));
    }
    match total_portfolio_value(tokens) {
        Some(_) => {},
        None => {
            return Err(AppError::InvalidInput(String::from_str("wallet value is too large")));
        },
    };
    proof {
        lemma_merged(tokens@, signals@);
    }
    let (holdings, holding_signals) = merge_holdings(tokens, signals);
    let ghost m = holdings@;
    let concentrations = apportion_concentrations(&holdings);
    let mut insights: Vec<TokenInsight> = Vec::new();
    let mut token_insights: Vec<(String, TokenInsight)> = Vec::new();
    let mut i: usize = 0;
    while i < holdings.len()
        invariant
            i <= m.len() == holding_signals@.len() == concentrations@.len(),
            m == holdings@,
            forall|j: int| 0 <= j < m.len() ==> #[trigger] concentrations@[j] == apportioned(m, j),
            insights@.len() == i,
            token_insights@.len() == i,
            forall|j: int|
                0 <= j < i ==> (#[trigger] token_insights@[j]).0@ == m[j].token_address@
                    && token_insights@[j].1 == insight_of(apportioned(m, j), holding_signals@[j])
                    && insights@[j] == token_insights@[j].1,
        decreases m.len() - i,
    {
        let insight = analyze_token_position(concentrations[i], &holding_signals[i]);
        insights.push(insight);
        token_insights.push((holdings[i].token_address.clone(), insight));
        i = i + 1;
    }
    let risk_score = calculate_risk_score(&holdings, &holding_signals);
    let diversity_score = calculate_diversity_score(&holdings);
    assert(insights@ =~= insight_values(token_insights@));
    let recommendations = generate_recommendations(&holdings, &insights, diversity_score);
    proof {
        if total_value(tokens@) > 0 {
            lemma_concentrations_sum_to_one(m);
        }
    }
    Ok(WalletAnalysis { risk_score, diversity_score, recommendations, token_insights })
}

} // verus!
