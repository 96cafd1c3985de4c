use wallet_insight::advice::{analyze_wallet, generate_recommendations, Wallet};
use wallet_insight::error::AppError;
use wallet_insight::model::SCALE;
use wallet_insight::portfolio::{
    calculate_concentration, calculate_diversity_score, calculate_risk_score, determine_risk_level,
    suggest_action, Action, RiskLevel, TokenBalance, TokenInsight, TokenSignals,
};
use wallet_insight::service::{AIService, PortfolioService};

fn balance(address: &str, amount: u64, value: u64) -> TokenBalance {
    TokenBalance { token_address: address.to_string(), amount, value_usd: value }
}

fn wallet(tokens: Vec<TokenBalance>) -> Wallet {
    let mut w = Wallet::new("test_wallet".to_string(), 7, 1_700_000_000);
    w.total_value_usd = tokens.iter().map(|t| t.value_usd).sum();
    w.tokens = tokens;
    w
}

fn signals(vols: &[u64]) -> Vec<TokenSignals> {
    vols.iter().map(|v| TokenSignals { volatility: *v, price_trend: 0 }).collect()
}

const DIVERSIFY: &str = "Consider diversifying your portfolio across more assets";
const REBALANCE: &str = "Portfolio is highly concentrated. Consider rebalancing.";

#[test]
fn test_wallet_analysis() {
    let service = AIService::new();
    let w = wallet(vec![balance("token1", 100, 500 * SCALE), balance("token2", 200, 500 * SCALE)]);
    assert_eq!(w.total_value_usd, 1000 * SCALE);
    let analysis = service.analyze_wallet(&w, &signals(&[0, 0])).unwrap();
    assert!(analysis.risk_score <= SCALE);
    assert!(analysis.diversity_score <= SCALE);
    assert!(!analysis.recommendations.is_empty());
}

#[test]
fn two_equal_holdings_give_half_risk_and_half_diversity() {
    let w = wallet(vec![balance("token1", 100, 500 * SCALE), balance("token2", 200, 500 * SCALE)]);
    let a = analyze_wallet(&w, &signals(&[200_000, 800_000])).unwrap();
    assert_eq!(a.risk_score, 500_000);
    assert_eq!(a.diversity_score, 500_000);
    assert_eq!(a.token_insights.len(), 2);
    assert_eq!(a.token_insights[0].0, "token1");
    assert_eq!(a.token_insights[0].1.concentration, 500_000);
    assert_eq!(a.token_insights[0].1.risk_level, RiskLevel::High);
    assert_eq!(a.token_insights[1].1.risk_level, RiskLevel::VeryHigh);
    assert_eq!(a.token_insights[1].1.suggested_action, Action::ReduceExposure);
    assert_eq!(
        a.recommendations,
        vec![
            DIVERSIFY.to_string(),
            "Consider reducing exposure to token token1".to_string(),
            "Consider reducing exposure to token token2".to_string(),
        ]
    );
}

#[test]
fn zero_value_wallet_is_neutral() {
    let w = wallet(vec![balance("a", 0, 0), balance("b", 0, 0)]);
    let a = analyze_wallet(&w, &signals(&[900_000, 900_000])).unwrap();
    assert_eq!(a.risk_score, 0);
    assert_eq!(a.diversity_score, SCALE);
    assert_eq!(a.token_insights[0].1.concentration, 0);
    assert_eq!(a.token_insights[0].1.risk_level, RiskLevel::Low);
    let empty = wallet(vec![]);
    let a = analyze_wallet(&empty, &signals(&[])).unwrap();
    assert_eq!(a.risk_score, 0);
    assert_eq!(a.diversity_score, SCALE);
    assert_eq!(a.recommendations, vec![DIVERSIFY.to_string()]);
}

#[test]
fn reduce_lines_come_in_ascending_address_order() {
    let w = wallet(vec![
        balance("zeta", 1, 300),
        balance("alpha", 1, 300),
        balance("mid", 1, 300),
        balance("small", 1, 100),
    ]);
    let a = analyze_wallet(&w, &signals(&[SCALE, SCALE, 0, SCALE])).unwrap();
    assert_eq!(
        a.recommendations,
        vec![
            DIVERSIFY.to_string(),
            "Consider reducing exposure to token alpha".to_string(),
            "Consider reducing exposure to token mid".to_string(),
            "Consider reducing exposure to token zeta".to_string(),
        ]
    );
}

#[test]
fn concentrated_wallet_of_five_gets_rebalancing_only() {
    let w = wallet(vec![
        balance("a", 1, 960),
        balance("b", 1, 10),
        balance("c", 1, 10),
        balance("d", 1, 10),
        balance("e", 1, 10),
    ]);
    let a = analyze_wallet(&w, &signals(&[0, 0, 0, 0, 0])).unwrap();
    assert_eq!(
        a.recommendations,
        vec!["Consider reducing exposure to token a".to_string(), REBALANCE.to_string()]
    );
}

#[test]
fn well_spread_wallet_gets_no_recommendation() {
    let tokens: Vec<TokenBalance> =
        ["a", "b", "c", "d", "e", "f"].iter().map(|n| balance(n, 1, 100)).collect();
    let a = analyze_wallet(&wallet(tokens), &signals(&[0; 6])).unwrap();
    assert!(a.recommendations.is_empty());
    assert_eq!(a.diversity_score, SCALE - SCALE / 6 - 1);
}

#[test]
fn malformed_wallets_are_rejected() {
    let w = wallet(vec![balance("a", 1, 10)]);
    assert!(matches!(analyze_wallet(&w, &signals(&[])), Err(AppError::InvalidInput(_))));
    let w = wallet(vec![balance("a", 1, u64::MAX / 2), balance("b", 1, u64::MAX / 2)]);
    assert!(matches!(analyze_wallet(&w, &signals(&[0, 0])), Err(AppError::InvalidInput(_))));
}

#[test]
fn risk_level_table() {
    assert_eq!(determine_risk_level(99_999, SCALE), RiskLevel::Low);
    assert_eq!(determine_risk_level(100_000, 499_999), RiskLevel::Medium);
    assert_eq!(determine_risk_level(200_000, 500_000), RiskLevel::High);
    assert_eq!(determine_risk_level(200_001, 499_999), RiskLevel::High);
    assert_eq!(determine_risk_level(200_001, 500_000), RiskLevel::VeryHigh);
}

#[test]
fn action_rules() {
    assert_eq!(suggest_action(RiskLevel::High, 300_000, 0), Action::ReduceExposure);
    assert_eq!(suggest_action(RiskLevel::Low, 40_000, 1), Action::IncreasePosition);
    assert_eq!(suggest_action(RiskLevel::VeryHigh, 150_000, -60_000), Action::Sell);
    assert_eq!(suggest_action(RiskLevel::Low, 80_000, 60_000), Action::Buy);
    assert_eq!(suggest_action(RiskLevel::Medium, 150_000, 60_000), Action::Hold);
}

#[test]
fn concentration_risk_and_diversity_helpers() {
    assert_eq!(calculate_concentration(1, 3), 333_333);
    assert_eq!(calculate_concentration(5, 0), 0);
    let tokens = vec![balance("a", 1, 300), balance("b", 1, 100)];
    // 1 - (0.5625 + 0.0625) = 0.375
    assert_eq!(calculate_diversity_score(&tokens), 375_000);
    // (300 * 0.4 + 100 * 2.0) / 400 = 0.8
    assert_eq!(calculate_risk_score(&tokens, &signals(&[400_000, 2 * SCALE])), 800_000);
    // capped at 1.0
    assert_eq!(calculate_risk_score(&tokens, &signals(&[3 * SCALE, 3 * SCALE])), SCALE);
}

#[test]
fn direct_recommendations_call() {
    let tokens = vec![balance("b", 1, 1), balance("a", 1, 1)];
    let insight = TokenInsight {
        risk_level: RiskLevel::High,
        concentration: 500_000,
        suggested_action: Action::ReduceExposure,
    };
    let r = generate_recommendations(&tokens, &vec![insight, insight], 400_000);
    assert_eq!(
        r,
        vec![
            DIVERSIFY.to_string(),
            "Consider reducing exposure to token a".to_string(),
            "Consider reducing exposure to token b".to_string(),
            REBALANCE.to_string(),
        ]
    );
}

#[test]
fn portfolio_metrics() {
    let service = PortfolioService::new();
    let w = wallet(vec![balance("a", 1, 300), balance("b", 1, 100)]);
    let m = service.calculate_metrics(&w, &signals(&[400_000, 2 * SCALE])).unwrap();
    assert_eq!(m.total_value, 400);
    assert_eq!(m.risk_level, 800_000);
    assert!(service.calculate_metrics(&w, &signals(&[0])).is_err());
}

#[test]
fn concentrations_add_up_to_one() {
    let w = wallet(vec![balance("a", 1, 1), balance("b", 1, 1), balance("c", 1, 999_999)]);
    let a = analyze_wallet(&w, &signals(&[0, 0, 0])).unwrap();
    let c: Vec<u64> = a.token_insights.iter().map(|(_, i)| i.concentration).collect();
    assert_eq!(c, vec![1, 1, 999_998]);
    assert_eq!(c.iter().sum::<u64>(), SCALE);
    let w = wallet(vec![balance("a", 1, 1), balance("b", 1, 1), balance("c", 1, 1)]);
    let a = analyze_wallet(&w, &signals(&[0, 0, 0])).unwrap();
    let c: Vec<u64> = a.token_insights.iter().map(|(_, i)| i.concentration).collect();
    assert_eq!(c, vec![333_334, 333_333, 333_333]);
}

#[test]
fn repeated_addresses_are_merged() {
    let w = wallet(vec![
        balance("b", 1, 100),
        balance("a", 2, 300),
        balance("b", 3, 600),
    ]);
    let a = analyze_wallet(&w, &signals(&[SCALE, 0, 0])).unwrap();
    assert_eq!(a.token_insights.len(), 2);
    assert_eq!(a.token_insights[0].0, "b");
    assert_eq!(a.token_insights[0].1.concentration, 700_000);
    assert_eq!(a.token_insights[1].0, "a");
    assert_eq!(a.token_insights[1].1.concentration, 300_000);
    // the first holding's signals are kept for a token
    assert_eq!(a.risk_score, 700_000);
    assert_eq!(
        a.recommendations,
        vec![
            DIVERSIFY.to_string(),
            "Consider reducing exposure to token a".to_string(),
            "Consider reducing exposure to token b".to_string(),
            REBALANCE.to_string(),
        ]
    );
}

#[test]
fn recommendations_count_distinct_addresses() {
    let tokens: Vec<TokenBalance> =
        ["a", "b", "c", "d", "a", "b"].iter().map(|n| balance(n, 1, 1)).collect();
    let insight = TokenInsight {
        risk_level: RiskLevel::VeryHigh,
        concentration: 300_000,
        suggested_action: Action::ReduceExposure,
    };
    let r = generate_recommendations(&tokens, &vec![insight; 6], SCALE);
    assert_eq!(
        r,
        vec![
            DIVERSIFY.to_string(),
            "Consider reducing exposure to token a".to_string(),
            "Consider reducing exposure to token b".to_string(),
            "Consider reducing exposure to token c".to_string(),
            "Consider reducing exposure to token d".to_string(),
        ]
    );
}
