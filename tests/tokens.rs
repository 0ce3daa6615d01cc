use sandwich_detector::tokens::{equivalence_class, same_text};
use sandwich_detector::{
    are_tokens_equivalent, are_tokens_reversed, get_token_equivalence_group, SwapTransaction,
    TokenClass,
};

fn usd(dollars: u64) -> u64 {
    dollars * 1_000_000
}

fn sample_swap() -> SwapTransaction {
    SwapTransaction {
        tx_hash: "0x1".to_string(),
        block_number: 1,
        timestamp: 1,
        tx_position_in_block: 1,
        from_address: "0x1".to_string(),
        token_in: "USDC".to_string(),
        token_out: "ETH".to_string(),
        amount_in: 1000,
        amount_out: 1,
        gas_price: 100,
        pool_address: "0xpool".to_string(),
        token_launch_block: 1,
        is_contract_caller: false,
        usd_value_in: usd(1000),
        usd_value_out: usd(3200),
        gas_cost_usd: usd(50),
    }
}

#[test]
fn test_token_equivalence_groups() {
    assert_eq!(get_token_equivalence_group("USDC"), "STABLECOINS");
    assert_eq!(get_token_equivalence_group("USDT"), "STABLECOINS");
    assert_eq!(get_token_equivalence_group("DAI"), "STABLECOINS");
    assert_eq!(get_token_equivalence_group("ETH"), "ETH_GROUP");
    assert_eq!(get_token_equivalence_group("WETH"), "ETH_GROUP");
    assert_eq!(get_token_equivalence_group("WBTC"), "BTC_GROUP");
    assert_eq!(get_token_equivalence_group("SHIB"), "SHIB");
}

#[test]
fn test_are_tokens_equivalent() {
    assert!(are_tokens_equivalent("USDC", "USDT"));
    assert!(are_tokens_equivalent("ETH", "WETH"));
    assert!(are_tokens_equivalent("WBTC", "renBTC"));
    assert!(!are_tokens_equivalent("USDC", "ETH"));
    assert!(!are_tokens_equivalent("SHIB", "USDC"));
}

#[test]
fn test_are_tokens_reversed() {
    let tx_a = sample_swap();
    let tx_b_reversed = SwapTransaction {
        token_in: "WETH".to_string(),
        token_out: "USDT".to_string(),
        ..tx_a.clone()
    };
    let tx_b_not_reversed = SwapTransaction {
        token_in: "USDC".to_string(),
        token_out: "ETH".to_string(),
        ..tx_a.clone()
    };
    assert!(are_tokens_reversed(&tx_a, &tx_b_reversed));
    assert!(!are_tokens_reversed(&tx_a, &tx_b_not_reversed));
}

#[test]
fn equivalence_is_reflexive_and_symmetric() {
    let tokens = ["USDC", "USDT", "DAI", "FRAX", "BUSD", "ETH", "WETH", "stETH", "WBTC", "renBTC", "sBTC", "SHIB", "PEPE"];
    for a in tokens {
        assert!(are_tokens_equivalent(a, a));
        for b in tokens {
            assert_eq!(are_tokens_equivalent(a, b), are_tokens_equivalent(b, a));
            for c in tokens {
                if are_tokens_equivalent(a, b) && are_tokens_equivalent(b, c) {
                    assert!(are_tokens_equivalent(a, c));
                }
            }
        }
    }
}

#[test]
fn every_fixed_class_member_is_classified() {
    for t in ["USDC", "USDT", "DAI", "FRAX", "BUSD"] {
        assert_eq!(equivalence_class(t), TokenClass::Stablecoins);
    }
    for t in ["ETH", "WETH", "stETH"] {
        assert_eq!(equivalence_class(t), TokenClass::EthGroup);
    }
    for t in ["WBTC", "renBTC", "sBTC"] {
        assert_eq!(equivalence_class(t), TokenClass::BtcGroup);
    }
    assert_eq!(equivalence_class("usdc"), TokenClass::Singleton);
    assert_eq!(get_token_equivalence_group("stETH"), "ETH_GROUP");
    assert_eq!(get_token_equivalence_group("sBTC"), "BTC_GROUP");
}

#[test]
fn unlisted_tokens_are_singletons() {
    assert!(!are_tokens_equivalent("SHIB", "PEPE"));
    assert!(are_tokens_equivalent("PEPE", "PEPE"));
    // a token named like a class is still a class of its own
    assert!(!are_tokens_equivalent("STABLECOINS", "USDC"));
    assert!(!are_tokens_equivalent("", "USDC"));
    assert!(are_tokens_equivalent("", ""));
}

#[test]
fn text_comparison_is_exact() {
    assert!(same_text("0xpool", "0xpool"));
    assert!(!same_text("0xpool", "0xpool1"));
    assert!(!same_text("0xpoolA", "0xpoolB"));
    assert!(same_text("", ""));
    assert!(same_text("é", "é"));
    assert!(!same_text("é", "e"));
}
