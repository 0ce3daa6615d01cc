use sandwich_detector::simulation::{
    check_simulation_is_like_reality, replay_pool, simulate_sandwich_attack, simulate_without_attacker,
};
use sandwich_detector::{Fraction, Pool, SimulationError, SwapTransaction};

fn trade(position: u32, from: &str, token_in: &str, token_out: &str, amount_in: u64, amount_out: u64, pool: &str) -> SwapTransaction {
    SwapTransaction {
        tx_hash: format!("0x{}", position),
        block_number: 9,
        timestamp: 1,
        tx_position_in_block: position,
        from_address: from.to_string(),
        token_in: token_in.to_string(),
        token_out: token_out.to_string(),
        amount_in,
        amount_out,
        gas_price: 100,
        pool_address: pool.to_string(),
        token_launch_block: 1,
        is_contract_caller: false,
        usd_value_in: 0,
        usd_value_out: 0,
        gas_cost_usd: 0,
    }
}

fn usdc_eth() -> Pool {
    Pool::new(1_000_000, 1_000, "USDC".to_string(), "ETH".to_string())
}

#[test]
fn constant_product_output_is_exact() {
    let pool = usdc_eth();
    assert_eq!(pool.constant_product_formula(1_000, 1_000_000, 100), 90_909);
    assert_eq!(pool.constant_product_formula(0, 500, 7), 500);
    assert_eq!(pool.constant_product_formula(10, 0, 7), 0);
    assert_eq!(pool.constant_product_formula(u64::MAX, u64::MAX, u64::MAX), u64::MAX / 2);
}

#[test]
fn pool_prices_are_reserve_ratios() {
    let pool = usdc_eth();
    assert_eq!(pool.get_token_a_price(), Some(Fraction { numerator: 1_000, denominator: 1_000_000 }));
    assert_eq!(pool.get_token_b_price(), Some(Fraction { numerator: 1_000_000, denominator: 1_000 }));
    let empty = Pool::new(0, 5, "X".to_string(), "Y".to_string());
    assert_eq!(empty.get_token_a_price(), None);
}

#[test]
fn swap_moves_reserves_and_reports_slippage() {
    let pool = usdc_eth();
    // buying ETH (token B) with 100_000 USDC
    let buy = trade(0, "A", "USDC", "ETH", 100_000, 0, "0xp");
    let result = pool.simulate_swap(&buy);
    assert_eq!(result.tokens_received, 90);
    assert_eq!(result.new_pool_state.token_a_reserve, 1_100_000);
    assert_eq!(result.new_pool_state.token_b_reserve, 910);
    assert_eq!(result.price_per_token, Some(Fraction { numerator: 100_000, denominator: 90 }));
    // initial price 1000 USDC per ETH; execution price 1111.1: slippage 1/9
    let s = result.slippage.unwrap();
    assert_eq!(s.numerator * 9, s.denominator);
    // the original pool is untouched
    assert_eq!(pool.token_a_reserve, 1_000_000);
    // buying USDC (token A) with ETH
    let sell = trade(1, "B", "ETH", "USDC", 10, 0, "0xp");
    let result = pool.simulate_swap(&sell);
    assert_eq!(result.tokens_received, 9_900);
    assert_eq!(result.new_pool_state.token_a_reserve, 990_100);
    assert_eq!(result.new_pool_state.token_b_reserve, 1_010);
    // nothing received: no execution price
    let dust = trade(2, "C", "USDC", "ETH", 1, 0, "0xp");
    let result = pool.simulate_swap(&dust);
    assert_eq!(result.tokens_received, 0);
    assert_eq!(result.price_per_token, None);
    assert_eq!(result.slippage, None);
}

#[test]
fn slippage_of_equal_prices_is_zero() {
    let pool = usdc_eth();
    let price = Fraction { numerator: 3, denominator: 2 };
    assert_eq!(pool.calculate_slippage(price, price).unwrap().numerator, 0);
    let doubled = Fraction { numerator: 3, denominator: 1 };
    let s = pool.calculate_slippage(price, doubled).unwrap();
    assert_eq!(s.numerator, s.denominator);
    assert_eq!(pool.calculate_slippage(Fraction { numerator: 0, denominator: 1 }, price), None);
}

/// A sandwich whose front-run is 20% of the victim's size, with amounts that
/// follow the replay of `usdc_eth`.
fn sandwich_block() -> Vec<SwapTransaction> {
    vec![
        trade(0, "A", "USDC", "ETH", 20_000, 19, "0xp"),
        trade(1, "X", "ETH", "USDC", 1, 1_019, "0xother"),
        trade(2, "V", "USDC", "ETH", 100_000, 87, "0xp"),
        trade(3, "A", "ETH", "USDC", 19, 23_000, "0xp"),
    ]
}

#[test]
fn replay_reproduces_the_recorded_victim_output() {
    let block = sandwich_block();
    let pool = usdc_eth();
    let before = replay_pool(&pool, &block, &block[2], None).unwrap();
    assert_eq!(before.token_a_reserve, 1_020_000);
    assert_eq!(before.token_b_reserve, 981);
    assert_eq!(check_simulation_is_like_reality(&pool, &block, &block[2]), Some(true));
    let wrong = Pool::new(10_000_000, 1_000, "USDC".to_string(), "ETH".to_string());
    assert_eq!(check_simulation_is_like_reality(&wrong, &block, &block[2]), Some(false));
    let without_front = replay_pool(&pool, &block, &block[2], Some(0)).unwrap();
    assert_eq!(without_front.token_a_reserve, 1_000_000);
}

#[test]
fn front_run_causes_a_measurable_loss() {
    let block = sandwich_block();
    let pool = usdc_eth();
    // without the front-run the victim would get 90 ETH instead of 87
    assert_eq!(simulate_without_attacker(&pool, &block, &block[0], &block[2]), Some(3_448_275));
    let attack = simulate_sandwich_attack(&pool, &block[0], &block[2], &block[3], &block).unwrap();
    assert_eq!(attack.victim_loss_percentage, 3_448_275);
    assert_eq!(attack.victim_tx.from_address, "V");
}

#[test]
fn simulation_errors_are_reported() {
    let block = sandwich_block();
    let pool = usdc_eth();
    let wrong = Pool::new(10_000_000, 1_000, "USDC".to_string(), "ETH".to_string());
    assert_eq!(
        simulate_sandwich_attack(&wrong, &block[0], &block[2], &block[3], &block).unwrap_err(),
        SimulationError::SimulationMismatch
    );
    let elsewhere = SwapTransaction { pool_address: "0xnowhere".to_string(), ..block[2].clone() };
    assert_eq!(
        simulate_sandwich_attack(&pool, &block[0], &elsewhere, &block[3], &block).unwrap_err(),
        SimulationError::NoPoolTransactions
    );
    let huge = vec![trade(0, "A", "USDC", "ETH", u64::MAX, 1, "0xp"), block[2].clone()];
    assert_eq!(replay_pool(&pool, &huge, &block[2], None).map(|p| p.token_a_reserve), None);
    assert_eq!(
        simulate_sandwich_attack(&pool, &block[0], &block[2], &block[3], &huge).unwrap_err(),
        SimulationError::CannotSimulate
    );
}

#[test]
fn reality_check_accepts_exactly_one_percent() {
    let pool = Pool::new(1_000, 1_000, "USDC".to_string(), "ETH".to_string());
    // the replay yields 99 ETH for 110 USDC
    let recorded_100 = vec![trade(0, "V", "USDC", "ETH", 110, 100, "0xp")];
    assert_eq!(check_simulation_is_like_reality(&pool, &recorded_100, &recorded_100[0]), Some(true));
    let recorded_101 = vec![trade(0, "V", "USDC", "ETH", 110, 101, "0xp")];
    assert_eq!(check_simulation_is_like_reality(&pool, &recorded_101, &recorded_101[0]), Some(false));
    // nothing recorded and nothing simulated: no output to compare against
    let nothing = vec![trade(0, "V", "USDC", "ETH", 0, 0, "0xp")];
    assert_eq!(check_simulation_is_like_reality(&pool, &nothing, &nothing[0]), Some(false));
}

#[test]
fn equivalent_output_token_buys_the_matching_side() {
    let pool = Pool::new(800, 800_000, "ETH".to_string(), "NEWTOKEN".to_string());
    // selling NEWTOKEN for WETH takes ETH out of the pool
    let sell = trade(0, "A", "NEWTOKEN", "WETH", 10_000, 0, "0xp");
    assert!(pool.buys_token_a(&sell));
    let result = pool.simulate_swap(&sell);
    assert_eq!(result.tokens_received, 9);
    assert_eq!(result.new_pool_state.token_a_reserve, 791);
    assert_eq!(result.new_pool_state.token_b_reserve, 810_000);
    let buy = trade(1, "B", "WETH", "NEWTOKEN", 10, 0, "0xp");
    assert!(!pool.buys_token_a(&buy));
}

#[test]
fn a_token_the_pool_lacks_is_not_simulated() {
    let pool = usdc_eth();
    let foreign = trade(0, "A", "USDC", "SHIB", 1_000, 0, "0xp");
    assert!(!pool.can_simulate(&foreign));
    let victim = trade(1, "V", "USDC", "ETH", 100_000, 87, "0xp");
    let block = vec![foreign.clone(), victim.clone(), trade(2, "A", "ETH", "USDC", 1, 1, "0xp")];
    assert!(replay_pool(&pool, &block, &victim, None).is_none());
    assert_eq!(
        simulate_sandwich_attack(&pool, &block[0], &block[1], &block[2], &block).unwrap_err(),
        SimulationError::CannotSimulate
    );
}
