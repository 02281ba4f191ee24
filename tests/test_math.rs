use lmsr::{init_market, ErrorCode, Market};

fn fresh_market(num_outcomes: u8, scale: u64) -> Market {
    init_market([7u8; 32], num_outcomes, scale, 10, 0, num_outcomes as usize, 255, 254).unwrap()
}

/// Edge cases of the market maker:
/// 1. a very small trade (1 lamport);
/// 2. an extreme probability state (one outcome heavily favoured);
/// 3. a market with a very small liquidity parameter;
/// 4. strict growth of the cost function over a run of purchases.
#[test]
fn test_lmsr_edge_cases() {
    let resolve_at: i64 = 10;
    let mut market = init_market([7u8; 32], 2, 100_000, resolve_at, 0, 2, 255, 254).unwrap();

    market.scale = 1_000_000_000; // 1 SOL liquidity parameter
    market.num_outcomes = 2;
    market.resolve_at = resolve_at;
    market.admin = [7u8; 32];
    market.initialized_at = 0;

    println!("\n=== Edge Case 1: Very Small Trade (1 lamport) ===");
    let result = market.buy_shares(0, 1);
    assert!(result.is_err(), "Should reject trade that mints 0 shares");

    println!("\n=== Edge Case 2: Extreme Probability State ===");
    let large_buy = 2_000_000_000; // 2 SOL
    let shares = market.buy_shares(0, large_buy).unwrap();
    println!("Bought {} lamports worth, minted {} shares", large_buy, shares);

    let price_a = market.price(0).unwrap();
    let price_b = market.price(1).unwrap();
    println!("Price A: {} (~{:.2}%)", price_a, price_a as f64 / 1e7);
    println!("Price B: {} (~{:.2}%)", price_b, price_b as f64 / 1e7);

    assert!(price_a > 800_000_000, "Price A should be >80% after large buy");
    assert!(price_b < 200_000_000, "Price B should be <20% after large buy");
    let price_sum = price_a + price_b;
    assert!(
        (price_sum as i64 - 1_000_000_000).abs() <= 1,
        "Prices must sum to ~1.0: {} vs 1000000000",
        price_sum
    );

    println!("\n=== Edge Case 3: Small Liquidity Parameter ===");
    market.supplies = [0; 16];
    market.reserves = [0; 16];
    market.scale = 10_000_000; // 0.01 SOL (very sensitive to trades)

    let initial_price_a = market.price(0).unwrap();
    let initial_price_b = market.price(1).unwrap();
    println!("Initial prices with b=0.01 SOL:");
    println!("  Price A: {}", initial_price_a);
    println!("  Price B: {}", initial_price_b);

    let shares = market.buy_shares(0, 5_000_000).unwrap(); // 0.005 SOL (half of b)
    let new_price_a = market.price(0).unwrap();
    let new_price_b = market.price(1).unwrap();
    println!("After buying 0.005 SOL (50% of b):");
    println!("  Shares minted: {}", shares);
    println!("  Price A: {} (was {})", new_price_a, initial_price_a);
    println!("  Price B: {} (was {})", new_price_b, initial_price_b);

    let price_change = new_price_a as i64 - initial_price_a as i64;
    assert!(price_change > 100_000_000, "Small b should cause large price impact");
    let price_sum = new_price_a + new_price_b;
    assert!(
        (price_sum as i64 - 1_000_000_000).abs() <= 1,
        "Prices must sum to ~1.0: {} vs 1000000000",
        price_sum
    );

    println!("\n=== Edge Case 4: Cost Function Monotonicity ===");
    market.supplies = [0; 16];
    market.reserves = [0; 16];
    market.scale = 1_000_000_000;

    let mut prev_cost = market.cost().unwrap();
    println!("Initial cost: {}", prev_cost);
    for i in 1..=5 {
        let outcome = if i % 2 == 1 { 0 } else { 1 };
        market.buy_shares(outcome, 500_000_000).unwrap(); // 0.5 SOL
        let new_cost = market.cost().unwrap();
        println!(
            "After buy {} (outcome {}): cost = {} (increased by {})",
            i,
            outcome,
            new_cost,
            new_cost - prev_cost
        );
        assert!(new_cost > prev_cost, "Cost must increase after buying shares");
        prev_cost = new_cost;
    }
}

#[test]
fn symmetric_two_outcome_market() {
    let market = fresh_market(2, 1_000_000_000);
    assert_eq!(market.price(0), Ok(500_000_000));
    assert_eq!(market.price(1), Ok(500_000_000));
    // ln 2 through the twenty-term series at the top of its interval.
    assert_eq!(market.cost(), Ok(668_771_400));
}

#[test]
fn purchase_then_purchase_on_second_outcome() {
    let mut market = fresh_market(2, 1_000_000_000);
    let before = market.cost().unwrap();

    assert_eq!(market.buy_shares(0, 500_000_000), Ok(668_771_400_000_000_000));
    assert_eq!(market.supplies[0], 668_771_400_000_000_000);
    assert_eq!(market.reserves[0], 500_000_000);
    assert_eq!(market.supplies[1], 0);
    assert_eq!(market.reserves[1], 0);
    let after_first = market.cost().unwrap();
    assert_eq!(after_first, 1_082_427_963);
    assert!(after_first > before);
    let (price_a, price_b) = (market.price(0).unwrap(), market.price(1).unwrap());
    assert_eq!((price_a, price_b), (661_227_999, 338_772_000));
    assert!(price_a > price_b);
    assert!(price_a + price_b <= 1_000_000_000 && price_a + price_b >= 999_999_999);

    assert_eq!(market.buy_shares(1, 800_000_000), Ok(1_386_294_356_000_000_000));
    let after_second = market.cost().unwrap();
    assert_eq!(after_second, 1_783_700_044);
    assert!(after_second > after_first);
    let (price_a, price_b) = (market.price(0).unwrap(), market.price(1).unwrap());
    assert_eq!((price_a, price_b), (327_938_677, 672_061_322));
    assert!(price_b > price_a);
    assert!(price_a + price_b <= 1_000_000_000 && price_a + price_b >= 999_999_999);
}

#[test]
fn small_liquidity_moves_price_far() {
    let mut market = fresh_market(2, 10_000_000);
    let before = market.price(0).unwrap();
    market.buy_shares(0, 5_000_000).unwrap();
    let after = market.price(0).unwrap();
    assert_eq!(after, 661_227_999);
    assert!(after - before > 100_000_000);

    let mut deep = fresh_market(2, 1_000_000_000);
    assert_eq!(deep.buy_shares(0, 5_000_000), Err(ErrorCode::DepositIsZero));
    assert_eq!(deep.price(0), Ok(500_000_000));
}

#[test]
fn unit_purchase_is_degenerate() {
    for n in 2..=16u8 {
        let mut market = fresh_market(n, 1_000_000_000);
        let copy = market;
        assert_eq!(market.buy_shares(0, 1), Err(ErrorCode::DepositIsZero));
        assert_eq!(market.supplies, copy.supplies);
        assert_eq!(market.reserves, copy.reserves);
    }
}

#[test]
fn price_sum_over_three_outcomes() {
    let mut market = fresh_market(3, 1_000_000_000);
    market.supplies[0] = 2_000_000_000_000_000_000;
    let prices: Vec<u64> = (0..3).map(|i| market.price(i).unwrap()).collect();
    assert_eq!(prices, vec![786_986_041, 106_506_979, 106_506_979]);
    assert_eq!(prices.iter().sum::<u64>(), 999_999_999);
    assert_eq!(market.cost(), Ok(2_239_544_765));
}

#[test]
fn exp_values() {
    assert_eq!(lmsr::fp_exp(0), Ok(1_000_000_000));
    assert_eq!(lmsr::fp_exp(1), Ok(1_000_000_001));
    assert_eq!(lmsr::fp_exp(500_000_000), Ok(1_648_721_267));
    assert_eq!(lmsr::fp_exp(1_000_000_000), Ok(2_718_281_823));
    assert_eq!(lmsr::fp_exp(-1_000_000_000), Ok(367_879_441));
    assert_eq!(lmsr::fp_exp(20_000_000_000), Ok(271_252_262_880_684_975));
}

#[test]
fn exp_domain_clamps() {
    assert_eq!(lmsr::fp_exp(20_000_000_001), Ok(u128::MAX));
    assert_eq!(lmsr::fp_exp(i128::MAX), Ok(u128::MAX));
    assert_eq!(lmsr::fp_exp(-20_000_000_001), Ok(0));
    assert_eq!(lmsr::fp_exp(i128::MIN), Ok(0));
}

#[test]
fn ln_values() {
    assert_eq!(lmsr::fp_ln(0), Err(ErrorCode::MathOverflow));
    assert_eq!(lmsr::fp_ln(1_000_000_000), Ok(0));
    assert_eq!(lmsr::fp_ln(1_000_000_001), Ok(1));
    assert_eq!(lmsr::fp_ln(2_000_000_000), Ok(668_771_400));
    assert_eq!(lmsr::fp_ln(500_000_000), Ok(-668_771_400));
    assert_eq!(lmsr::fp_ln(2_718_281_828), Ok(1_000_000_000));
    assert_eq!(lmsr::fp_ln(3_000_000_000), Ok(1_098_612_290));
    assert_eq!(lmsr::fp_ln(1_000_000_000_000_000_000), Ok(20_723_265_837));
    assert_eq!(lmsr::fp_ln(1), Ok(-20_723_265_837));
    assert_eq!(lmsr::fp_ln(u128::MAX), Err(ErrorCode::MathOverflow));
}

#[test]
fn cost_and_price_reject_bad_configuration() {
    let mut market = fresh_market(2, 1_000_000_000);
    market.scale = 0;
    assert_eq!(market.cost(), Err(ErrorCode::ReserveIsZero));
    assert_eq!(market.price(0), Err(ErrorCode::LiquidityParameterIsZero));
    assert_eq!(market.buy_shares(0, 10), Err(ErrorCode::LiquidityParameterIsZero));

    let mut market = fresh_market(2, 1_000_000_000);
    market.num_outcomes = 17;
    assert_eq!(market.cost(), Err(ErrorCode::InvalidOutcomeIndex));
    assert_eq!(market.price(0), Err(ErrorCode::InvalidOutcomeIndex));
    assert_eq!(market.buy_shares(0, 10), Err(ErrorCode::InvalidOutcomeIndex));
}

#[test]
fn operations_reject_bad_index_and_zero_deposit() {
    let mut market = fresh_market(2, 1_000_000_000);
    assert_eq!(market.price(2), Err(ErrorCode::InvalidOutcomeIndex));
    assert_eq!(market.buy_shares(2, 10), Err(ErrorCode::InvalidOutcomeIndex));
    assert_eq!(market.buy_shares(0, 0), Err(ErrorCode::DepositIsZero));
}

#[test]
fn saturated_exponent_overflows_the_sum() {
    let mut market = fresh_market(2, 1);
    market.supplies[0] = 21_000_000_000;
    assert_eq!(market.cost(), Err(ErrorCode::MathOverflow));
    assert_eq!(market.price(1), Err(ErrorCode::MathOverflow));
    let copy = market;
    assert_eq!(market.buy_shares(1, 1), Err(ErrorCode::MathOverflow));
    assert_eq!(market.supplies, copy.supplies);
}

#[test]
fn reserve_overflow_leaves_market_unchanged() {
    let mut market = fresh_market(2, 1_000_000_000);
    market.reserves[0] = u64::MAX;
    assert_eq!(market.buy_shares(0, 500_000_000), Err(ErrorCode::MathOverflow));
    assert_eq!(market.supplies[0], 0);
    assert_eq!(market.reserves[0], u64::MAX);
}

#[test]
fn init_market_validates_parameters() {
    let admin = [1u8; 32];
    assert_eq!(
        init_market(admin, 1, 1_000, 10, 0, 1, 0, 0).unwrap_err(),
        ErrorCode::NotEnoughOutcomes
    );
    assert_eq!(
        init_market(admin, 2, 1_000, 1, 0, 2, 0, 0).unwrap_err(),
        ErrorCode::MarketTooQuick
    );
    assert_eq!(
        init_market(admin, 2, 1_000, i64::MAX, i64::MAX, 2, 0, 0).unwrap_err(),
        ErrorCode::MarketTooQuick
    );
    assert_eq!(
        init_market(admin, 17, 1_000, 10, 0, 17, 0, 0).unwrap_err(),
        ErrorCode::TooManyOutcomes
    );
    assert_eq!(
        init_market(admin, 3, 1_000, 10, 0, 2, 0, 0).unwrap_err(),
        ErrorCode::InvalidMintCount
    );
    let market = init_market(admin, 3, 1_000, 2, 0, 3, 9, 8).unwrap();
    assert_eq!(market.num_outcomes, 3);
    assert_eq!(market.scale, 1_000);
    assert_eq!(market.resolve_at, 2);
    assert_eq!(market.admin, admin);
    assert_eq!((market.bump, market.vault_bump), (9, 8));
    assert_eq!(market.initialized_at, 0);
    assert_eq!(market.supplies, [0; 16]);
    assert_eq!(market.reserves, [0; 16]);
}
